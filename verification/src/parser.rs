//! The precedence-climbing parser, stated mathematically.
//!
//! `spec_partial_parse` is the reference: consume one token, dispatch to
//! its prefix form, then fold infix operators onto the left operand while
//! their binding power reaches the minimum asked for. Every executable
//! parse function is proved to return exactly what the reference says,
//! position included. A failed step yields a non-empty error list, and a
//! step that combines sub-parses concatenates their error lists rather than
//! short-circuiting.
//!
//! Binding powers (higher binds tighter): member access, optional access
//! and indexing 100; `* / // %` 80; `+ - ++` 70; comparisons 60; `& &&` 50;
//! `| ||` 40; `??` 30; assignment 19, the lowest, right-associative. A
//! unary operator parses its operand at 90, tighter than every binary
//! operator. Binary operators are left-associative: their parselet recurses
//! one notch above their own power. Assignment recurses at its own power,
//! so `a <- b <- c` nests to the right.

use vstd::prelude::*;
use vstd::string::StringSliceAdditionalSpecFns;

use crate::error::error_type_view;
use crate::error::errors_view;
use crate::error::Error;
use crate::error::ErrorType;
use crate::error::ErrorTypeV;
use crate::node::node_view;
use crate::node::nodes_view;
use crate::node::Node;
use crate::node::NodeV;
use crate::node_type::Binary;
use crate::node_type::NodeType;
use crate::node_type::RangeType;
use crate::node_type::Unary;
use crate::span::Span;
use crate::token::Bracket;
use crate::token::Keyword;
use crate::token::Opening;
use crate::token::Operator;
use crate::token::Token;
use crate::token::TokenKind;

verus! {

/// What one parse step returns: the node or the errors, and the position
/// after it.
pub type PRes = (Result<NodeV, Seq<Span<ErrorTypeV>>>, int);

/// An error of the given kind over `from..to`.
pub open spec fn ev(kind: ErrorTypeV, from: usize, to: usize) -> Span<ErrorTypeV> {
    Span { note: kind, from, to }
}

/// A leaf node covering one token.
pub open spec fn leafv(nt: NodeType, t: Span<Token>) -> NodeV {
    NodeV { node: nt, from: t.from, to: t.to, children: Seq::empty() }
}

/// `p`, but never below `floor` nor above `cap`: the next position of a
/// well-behaved sub-parse is its own result, and these bounds never bind.
pub open spec fn bounded(p: int, floor: int, cap: int) -> int {
    if p < floor {
        floor
    } else if p > cap {
        cap
    } else {
        p
    }
}

/// The token kinds that can begin an expression: the leaf forms and a
/// parenthesized group.
pub open spec fn expr_start_kinds() -> Seq<TokenKind> {
    seq![
        TokenKind::Ident,
        TokenKind::Num,
        TokenKind::Str,
        TokenKind::Char,
        TokenKind::Bracket(Opening::Open, Bracket::Paren),
    ]
}

/// The infix binding power of a token, if it has one.
pub open spec fn spec_infix_bp(tok: Token) -> Option<int> {
    match tok {
        Token::Operator(op) => match op {
            Operator::Dot => Some(100int),
            Operator::Question => Some(100int),
            Operator::Star => Some(80int),
            Operator::Slash => Some(80int),
            Operator::DoubleSlash => Some(80int),
            Operator::Percent => Some(80int),
            Operator::Plus => Some(70int),
            Operator::Minus => Some(70int),
            Operator::DoublePlus => Some(70int),
            Operator::DoubleEqual => Some(60int),
            Operator::NotEqual => Some(60int),
            Operator::Less => Some(60int),
            Operator::LessEqual => Some(60int),
            Operator::Greater => Some(60int),
            Operator::GreaterEqual => Some(60int),
            Operator::Amp => Some(50int),
            Operator::DoubleAmp => Some(50int),
            Operator::Pipe => Some(40int),
            Operator::DoublePipe => Some(40int),
            Operator::DoubleQuestion => Some(30int),
            Operator::LeftArrow => Some(19int),
            _ => None,
        },
        Token::Bracket(Opening::Open, Bracket::Bracket) => Some(100int),
        _ => None,
    }
}

/// The operators the generic binary-node builder accepts: exactly those
/// the precedence table gives a binary node kind. Member access, optional
/// chaining, assignment and the range marks have parselets of their own,
/// and the remaining punctuation never binds infix.
pub open spec fn spec_binary_op(op: Operator) -> bool {
    match op {
        Operator::Star => true,
        Operator::Slash => true,
        Operator::DoubleSlash => true,
        Operator::Percent => true,
        Operator::Plus => true,
        Operator::Minus => true,
        Operator::DoublePlus => true,
        Operator::DoubleEqual => true,
        Operator::NotEqual => true,
        Operator::Less => true,
        Operator::LessEqual => true,
        Operator::Greater => true,
        Operator::GreaterEqual => true,
        Operator::Amp => true,
        Operator::DoubleAmp => true,
        Operator::Pipe => true,
        Operator::DoublePipe => true,
        Operator::DoubleQuestion => true,
        _ => false,
    }
}

/// The binary node kind of an infix operator token. Meaningful only where
/// `spec_binary_op` holds; the executable builders leave the rest out by
/// precondition, as the grammar has no binary node for them.
pub open spec fn binary_of(op: Operator) -> Binary {
    match op {
        Operator::Star => Binary::Multiply,
        Operator::Slash => Binary::Div,
        Operator::DoubleSlash => Binary::FloorDiv,
        Operator::Percent => Binary::Mod,
        Operator::Plus => Binary::Add,
        Operator::Minus => Binary::Sub,
        Operator::DoublePlus => Binary::Concatenate,
        Operator::DoubleEqual => Binary::Equal,
        Operator::NotEqual => Binary::NotEqual,
        Operator::Less => Binary::Less,
        Operator::LessEqual => Binary::LessEqual,
        Operator::Greater => Binary::Greater,
        Operator::GreaterEqual => Binary::GreaterEqual,
        Operator::Amp => Binary::And,
        Operator::DoubleAmp => Binary::LazyAnd,
        Operator::Pipe => Binary::Or,
        Operator::DoublePipe => Binary::LazyOr,
        Operator::DoubleQuestion => Binary::NullOr,
        _ => Binary::Add,
    }
}

/// A range operator token, one of the four range punctuation marks.
pub open spec fn spec_range_op(tok: Token) -> bool {
    match tok {
        Token::Operator(op) => match op {
            Operator::DoubleDot => true,
            Operator::DoubleDotEqual => true,
            Operator::GreaterDoubleDot => true,
            Operator::GreaterDoubleDotEqual => true,
            _ => false,
        },
        _ => false,
    }
}

/// The numeric literal shapes that denote an unsigned integer: digits and
/// underscores only.
pub open spec fn int_shape(w: Seq<u8>) -> bool {
    forall|j: int|
        0 <= j < w.len() ==> crate::ascii::spec_digit(#[trigger] w[j]) || w[j]
            == crate::ascii::UNDERSCORE
}

/// The leaf kind of a numeric literal token, read from its spanned text.
pub open spec fn num_leaf(src: Seq<u8>, t: Span<Token>) -> NodeType {
    if int_shape(src.subrange(t.from as int, t.to as int)) {
        NodeType::UInt
    } else {
        NodeType::Float
    }
}

/// Concatenate the error lists of two fallible sub-parses, or pair their
/// results: the error-aggregation rule that never short-circuits.
pub open spec fn combine(left: Result<NodeV, Seq<Span<ErrorTypeV>>>, right: Result<
    NodeV,
    Seq<Span<ErrorTypeV>>,
>, node: NodeType, from: usize, to: usize) -> Result<NodeV, Seq<Span<ErrorTypeV>>> {
    match (left, right) {
        (Ok(l), Ok(r)) => Ok(NodeV { node, from, to, children: seq![l, r] }),
        (Err(e), Ok(_)) => Err(e),
        (Ok(_), Err(e)) => Err(e),
        (Err(e1), Err(e2)) => Err(e1 + e2),
    }
}

/// Parse one expression from `pos`: a prefix form, then every infix
/// operator whose binding power reaches `min`.
pub open spec fn spec_partial_parse(src: Seq<u8>, toks: Seq<Span<Token>>, pos: int, min: int) -> PRes
    decreases toks.len() - pos, 0int,
{
    if pos < 0 || pos >= toks.len() {
        (
            Err(seq![ev(ErrorTypeV::SuddenEof, src.len() as usize, src.len() as usize)]),
            pos,
        )
    } else {
        let t = toks[pos];
        let pr = spec_prefix(src, toks, pos + 1, t);
        let p1 = bounded(pr.1, pos + 1, toks.len() as int);
        spec_infix_loop(src, toks, p1, min, pr.0)
    }
}

/// `spec_partial_parse`, then a check that the result denotes a value.
pub open spec fn spec_parse_expr(src: Seq<u8>, toks: Seq<Span<Token>>, pos: int, min: int) -> PRes
    decreases toks.len() - pos, 1int,
{
    let pr = spec_partial_parse(src, toks, pos, min);
    match pr.0 {
        Ok(n) => if n.node.spec_expr() {
            pr
        } else {
            (Err(seq![ev(ErrorTypeV::NonExprOperand, n.from, n.to)]), pr.1)
        },
        Err(e) => pr,
    }
}

/// Fold infix operators onto `left` while the next token binds at `min`.
pub open spec fn spec_infix_loop(
    src: Seq<u8>,
    toks: Seq<Span<Token>>,
    pos: int,
    min: int,
    left: Result<NodeV, Seq<Span<ErrorTypeV>>>,
) -> PRes
    decreases toks.len() - pos, 4int,
{
    if pos < 0 || pos >= toks.len() {
        (left, pos)
    } else {
        let t = toks[pos];
        match spec_infix_bp(t.note) {
            None => (left, pos),
            Some(bp) => if bp < min {
                (left, pos)
            } else {
                let ir = spec_infix(src, toks, pos + 1, t, left, bp);
                let p2 = bounded(ir.1, pos + 1, toks.len() as int);
                spec_infix_loop(src, toks, p2, min, ir.0)
            },
        }
    }
}

/// Dispatch a consumed token to its prefix form.
pub open spec fn spec_prefix(src: Seq<u8>, toks: Seq<Span<Token>>, pos: int, t: Span<Token>) -> PRes
    decreases toks.len() - pos, 3int,
{
    match t.note {
        Token::Keyword(Keyword::True) => (Ok(leafv(NodeType::True, t)), pos),
        Token::Keyword(Keyword::False) => (Ok(leafv(NodeType::False, t)), pos),
        Token::Keyword(Keyword::Null) => (Ok(leafv(NodeType::Null, t)), pos),
        Token::Keyword(Keyword::Clone) => spec_unary(src, toks, pos, t, Unary::Clone),
        Token::Operator(Operator::Plus) => spec_unary(src, toks, pos, t, Unary::Plus),
        Token::Operator(Operator::Minus) => spec_unary(src, toks, pos, t, Unary::Minus),
        Token::Operator(Operator::Bang) => spec_unary(src, toks, pos, t, Unary::Not),
        Token::Operator(Operator::Amp) => spec_unary(src, toks, pos, t, Unary::Ref),
        Token::Operator(Operator::DoubleAmp) => spec_double_ref(src, toks, pos, t),
        Token::Ident => (Ok(leafv(NodeType::Ident, t)), pos),
        Token::Num => (Ok(leafv(num_leaf(src, t), t)), pos),
        Token::Str => (Ok(leafv(NodeType::Str, t)), pos),
        Token::Char => (Ok(leafv(NodeType::Char, t)), pos),
        Token::UnterminatedQuote => (
            Err(seq![ev(ErrorTypeV::UnterminatedQuote, t.from, t.to)]),
            pos,
        ),
        Token::Unknown => (Err(seq![ev(ErrorTypeV::UnknownToken, t.from, t.to)]), pos),
        Token::Bracket(Opening::Open, Bracket::Paren) => spec_group(src, toks, pos, t),
        _ => (Err(seq![ev(ErrorTypeV::NoExpectation(expr_start_kinds()), t.from, t.to)]), pos),
    }
}

/// A unary wrapper: parse the operand at 90 and wrap it.
pub open spec fn spec_unary(
    src: Seq<u8>,
    toks: Seq<Span<Token>>,
    pos: int,
    t: Span<Token>,
    u: Unary,
) -> PRes
    decreases toks.len() - pos, 2int,
{
    let pr = spec_parse_expr(src, toks, pos, 90);
    match pr.0 {
        Ok(n) => (
            Ok(
                NodeV {
                    node: NodeType::Unary(u),
                    from: t.from,
                    to: n.to,
                    children: seq![n],
                },
            ),
            pr.1,
        ),
        Err(e) => (Err(e), pr.1),
    }
}

/// A doubled-ref token used prefix: one token, two nested `Ref` nodes, each
/// spanning one byte of it.
pub open spec fn spec_double_ref(src: Seq<u8>, toks: Seq<Span<Token>>, pos: int, t: Span<Token>) -> PRes
    decreases toks.len() - pos, 2int,
{
    let pr = spec_parse_expr(src, toks, pos, 90);
    match pr.0 {
        Ok(n) => {
            let inner = NodeV {
                node: NodeType::Unary(Unary::Ref),
                from: (t.from + 1) as usize,
                to: t.to,
                children: seq![n],
            };
            (
                Ok(
                    NodeV {
                        node: NodeType::Unary(Unary::Ref),
                        from: t.from,
                        to: (t.from + 1) as usize,
                        children: seq![inner],
                    },
                ),
                pr.1,
            )
        },
        Err(e) => (Err(e), pr.1),
    }
}

/// A parenthesized group: the inner expression, then the closing paren.
/// The group is transparent: the inner node comes back unchanged.
pub open spec fn spec_group(src: Seq<u8>, toks: Seq<Span<Token>>, pos: int, t: Span<Token>) -> PRes
    decreases toks.len() - pos, 2int,
{
    let pr = spec_parse_expr(src, toks, pos, 0);
    let p1 = pr.1;
    if 0 <= p1 < toks.len() && toks[p1].note == Token::Bracket(Opening::Close, Bracket::Paren) {
        (pr.0, p1 + 1)
    } else {
        let anchor = if 0 <= p1 < toks.len() {
            toks[p1].from
        } else {
            src.len() as usize
        };
        let e = ev(
            ErrorTypeV::NoExpectation(
                seq![TokenKind::Bracket(Opening::Close, Bracket::Paren)],
            ),
            anchor,
            anchor,
        );
        match pr.0 {
            Ok(_) => (Err(seq![e]), p1),
            Err(es) => (Err(es + seq![e]), p1),
        }
    }
}

/// Dispatch a consumed infix token to its parselet, `left` in hand.
pub open spec fn spec_infix(
    src: Seq<u8>,
    toks: Seq<Span<Token>>,
    pos: int,
    t: Span<Token>,
    left: Result<NodeV, Seq<Span<ErrorTypeV>>>,
    bp: int,
) -> PRes
    decreases toks.len() - pos, 3int,
{
    match t.note {
        Token::Operator(Operator::Dot) => spec_property(toks, pos, t, left, NodeType::Property),
        Token::Operator(Operator::LeftArrow) => spec_assign(src, toks, pos, left),
        Token::Operator(Operator::Question) => spec_question(src, toks, pos, t, left),
        Token::Bracket(Opening::Open, Bracket::Bracket) => spec_index_or_slice(
            src,
            toks,
            pos,
            t.from,
            left,
            false,
        ),
        Token::Operator(op) => spec_expr_operator(src, toks, pos, left, binary_of(op), bp),
        _ => (left, pos),
    }
}

/// A generic binary operator: parse the right operand one notch above the
/// operator's own power (left-associative) and combine.
pub open spec fn spec_expr_operator(
    src: Seq<u8>,
    toks: Seq<Span<Token>>,
    pos: int,
    left: Result<NodeV, Seq<Span<ErrorTypeV>>>,
    op: Binary,
    bp: int,
) -> PRes
    decreases toks.len() - pos, 2int,
{
    let pr = spec_partial_parse(src, toks, pos, bp + 1);
    let span_from = match left {
        Ok(l) => l.from,
        Err(_) => 0usize,
    };
    let span_to = match pr.0 {
        Ok(r) => r.to,
        Err(_) => 0usize,
    };
    (combine(left, pr.0, NodeType::Binary(op), span_from, span_to), pr.1)
}

/// Assignment: the left operand must be a place, the right side recurses at
/// assignment's own power, so assignment nests to the right.
pub open spec fn spec_assign(
    src: Seq<u8>,
    toks: Seq<Span<Token>>,
    pos: int,
    left: Result<NodeV, Seq<Span<ErrorTypeV>>>,
) -> PRes
    decreases toks.len() - pos, 2int,
{
    let left2 = match left {
        Ok(n) => if n.node.spec_place() {
            Ok(n)
        } else {
            Err(seq![ev(ErrorTypeV::NonPlace, n.from, n.to)])
        },
        Err(e) => Err(e),
    };
    let pr = spec_partial_parse(src, toks, pos, 19);
    let span_from = match left2 {
        Ok(l) => l.from,
        Err(_) => 0usize,
    };
    let span_to = match pr.0 {
        Ok(r) => r.to,
        Err(_) => 0usize,
    };
    (combine(left2, pr.0, NodeType::Assign, span_from, span_to), pr.1)
}

/// Property access: the token after the dot must be an identifier, else
/// `NoExpectation` anchors zero-width right after the dot. The node keeps
/// one child — the place — and its span runs through the identifier.
pub open spec fn spec_property(
    toks: Seq<Span<Token>>,
    pos: int,
    t: Span<Token>,
    left: Result<NodeV, Seq<Span<ErrorTypeV>>>,
    kind: NodeType,
) -> PRes
    decreases toks.len() - pos, 2int,
{
    if 0 <= pos < toks.len() && toks[pos].note == Token::Ident {
        match left {
            Ok(l) => (
                Ok(
                    NodeV {
                        node: kind,
                        from: l.from,
                        to: toks[pos].to,
                        children: seq![l],
                    },
                ),
                pos + 1,
            ),
            Err(e) => (Err(e), pos + 1),
        }
    } else {
        let e = ev(ErrorTypeV::NoExpectation(seq![TokenKind::Ident]), t.to, t.to);
        match left {
            Ok(_) => (Err(seq![e]), pos),
            Err(es) => (Err(es + seq![e]), pos),
        }
    }
}

/// Optional chaining: `?` must be followed by `.` (optional property) or
/// `[` (optional index or slice).
pub open spec fn spec_question(
    src: Seq<u8>,
    toks: Seq<Span<Token>>,
    pos: int,
    t: Span<Token>,
    left: Result<NodeV, Seq<Span<ErrorTypeV>>>,
) -> PRes
    decreases toks.len() - pos, 2int,
{
    if 0 <= pos < toks.len() && toks[pos].note == Token::Operator(Operator::Dot) {
        spec_property(toks, pos + 1, toks[pos], left, NodeType::OptionalProperty)
    } else if 0 <= pos < toks.len() && toks[pos].note == Token::Bracket(
        Opening::Open,
        Bracket::Bracket,
    ) {
        spec_index_or_slice(src, toks, pos + 1, t.from, left, true)
    } else {
        let e = ev(
            ErrorTypeV::NoExpectation(
                seq![
                    TokenKind::Operator(Operator::Dot),
                    TokenKind::Bracket(Opening::Open, Bracket::Bracket),
                ],
            ),
            t.to,
            t.to,
        );
        match left {
            Ok(_) => (Err(seq![e]), pos),
            Err(es) => (Err(es + seq![e]), pos),
        }
    }
}

/// The node kind of a bracket interior, given which bounds stood around
/// which range operator — `None` when the shape is not a valid index or
/// slice.
pub open spec fn slice_kind(
    has_from: bool,
    op: Option<Operator>,
    has_to: bool,
    optional: bool,
) -> Option<NodeType> {
    match op {
        None => if has_from {
            if optional {
                Some(NodeType::OptionalIndex)
            } else {
                Some(NodeType::Index)
            }
        } else {
            None
        },
        Some(o) => {
            let range = match o {
                Operator::DoubleDot => match (has_from, has_to) {
                    (false, false) => Some(RangeType::Full),
                    (true, false) => Some(RangeType::FromInclusive),
                    (false, true) => Some(RangeType::ToExclusive),
                    (true, true) => Some(RangeType::InclusiveExclusive),
                },
                Operator::DoubleDotEqual => match (has_from, has_to) {
                    (false, true) => Some(RangeType::ToInclusive),
                    (true, true) => Some(RangeType::Inclusive),
                    _ => None,
                },
                Operator::GreaterDoubleDot => match (has_from, has_to) {
                    (true, false) => Some(RangeType::FromExclusive),
                    (true, true) => Some(RangeType::Exclusive),
                    _ => None,
                },
                Operator::GreaterDoubleDotEqual => match (has_from, has_to) {
                    (true, true) => Some(RangeType::ExclusiveInclusive),
                    _ => None,
                },
                _ => None,
            };
            match range {
                Some(rk) => if optional {
                    Some(NodeType::OptionalSlice(rk))
                } else {
                    Some(NodeType::Slice(rk))
                },
                None => None,
            }
        },
    }
}

/// Index or slice: the bracket interior is a single expression, or a
/// from/to pair around a range operator; anything else is
/// `NonIndexNorSlice` spanning from the anchor to the closing bracket.
pub open spec fn spec_index_or_slice(
    src: Seq<u8>,
    toks: Seq<Span<Token>>,
    pos: int,
    anchor: usize,
    left: Result<NodeV, Seq<Span<ErrorTypeV>>>,
    optional: bool,
) -> PRes
    decreases toks.len() - pos, 2int,
{
    let close = Token::Bracket(Opening::Close, Bracket::Bracket);
    if !(0 <= pos < toks.len()) {
        let e = ev(ErrorTypeV::SuddenEof, src.len() as usize, src.len() as usize);
        match left {
            Ok(_) => (Err(seq![e]), pos),
            Err(es) => (Err(es + seq![e]), pos),
        }
    } else if toks[pos].note == close {
        let e = ev(ErrorTypeV::NonIndexNorSlice, anchor, toks[pos].to);
        match left {
            Ok(_) => (Err(seq![e]), pos + 1),
            Err(es) => (Err(es + seq![e]), pos + 1),
        }
    } else {
        let has_from = !spec_range_op(toks[pos].note);
        let fr = if has_from {
            spec_parse_expr(src, toks, pos, 0)
        } else {
            (Ok(leafv(NodeType::Ident, toks[pos])), pos)
        };
        let p1 = bounded(fr.1, pos, toks.len() as int);
        let has_op = 0 <= p1 < toks.len() && spec_range_op(toks[p1].note);
        let op = if has_op {
            match toks[p1].note {
                Token::Operator(o) => Some(o),
                _ => None,
            }
        } else {
            None
        };
        let p2 = if has_op {
            p1 + 1
        } else {
            p1
        };
        let has_to = has_op && 0 <= p2 < toks.len() && toks[p2].note != close;
        let tr = if has_to {
            spec_parse_expr(src, toks, p2, 0)
        } else {
            (Ok(leafv(NodeType::Ident, absent_bound())), p2)
        };
        let p3 = bounded(tr.1, p2, toks.len() as int);
        let has_close = 0 <= p3 < toks.len() && toks[p3].note == close;
        let p4 = if has_close {
            p3 + 1
        } else {
            p3
        };
        let from_errs: Seq<Span<ErrorTypeV>> = if has_from {
            match fr.0 {
                Ok(_) => Seq::empty(),
                Err(es) => es,
            }
        } else {
            Seq::empty()
        };
        let to_errs: Seq<Span<ErrorTypeV>> = if has_to {
            match tr.0 {
                Ok(_) => Seq::empty(),
                Err(es) => es,
            }
        } else {
            Seq::empty()
        };
        let close_errs: Seq<Span<ErrorTypeV>> = if has_close {
            Seq::empty()
        } else {
            let anchor2 = if 0 <= p3 < toks.len() {
                toks[p3].from
            } else {
                src.len() as usize
            };
            seq![ev(ErrorTypeV::NoExpectation(seq![TokenKind::Bracket(
                Opening::Close, Bracket::Bracket)]), anchor2, anchor2)]
        };
        let inner_errs = from_errs + to_errs + close_errs;
        if inner_errs.len() > 0 {
            match left {
                Ok(_) => (Err(inner_errs), p4),
                Err(es) => (Err(es + inner_errs), p4),
            }
        } else {
            // sub-parses and the close bracket are in hand: classify
            let close_to = toks[p3].to;
            match slice_kind(has_from, op, has_to, optional) {
                None => {
                    let e = ev(ErrorTypeV::NonIndexNorSlice, anchor, close_to);
                    match left {
                        Ok(_) => (Err(seq![e]), p4),
                        Err(es) => (Err(es + seq![e]), p4),
                    }
                },
                Some(kind) => match left {
                    Ok(l) => {
                        let from_bound: Seq<NodeV> = if has_from && fr.0 is Ok {
                            seq![fr.0->Ok_0]
                        } else {
                            Seq::empty()
                        };
                        let to_bound: Seq<NodeV> = if has_to && tr.0 is Ok {
                            seq![tr.0->Ok_0]
                        } else {
                            Seq::empty()
                        };
                        let bounds: Seq<NodeV> = from_bound + to_bound;
                        (
                            Ok(
                                NodeV {
                                    node: kind,
                                    from: l.from,
                                    to: close_to,
                                    children: seq![l] + bounds,
                                },
                            ),
                            p4,
                        )
                    },
                    Err(es) => (Err(es), p4),
                },
            }
        }
    }
}

/// The token span standing in for a range bound that is absent; the
/// classification never reads it.
pub open spec fn absent_bound() -> Span<Token> {
    Span { note: Token::Ident, from: 0usize, to: 0usize }
}

/// Parsing never rewinds and never leaves the stream.
pub proof fn lemma_partial_parse_bounds(src: Seq<u8>, toks: Seq<Span<Token>>, pos: int, min: int)
    requires
        0 <= pos <= toks.len(),
    ensures
        pos <= spec_partial_parse(src, toks, pos, min).1 <= toks.len(),
    decreases toks.len() - pos, 0int,
{
    if pos < toks.len() {
        let t = toks[pos];
        lemma_prefix_bounds(src, toks, pos + 1, t);
        let pr = spec_prefix(src, toks, pos + 1, t);
        let p1 = bounded(pr.1, pos + 1, toks.len() as int);
        lemma_infix_loop_bounds(src, toks, p1, min, pr.0);
    }
}

/// The expression check moves no further than the parse it wraps.
pub proof fn lemma_parse_expr_bounds(src: Seq<u8>, toks: Seq<Span<Token>>, pos: int, min: int)
    requires
        0 <= pos <= toks.len(),
    ensures
        pos <= spec_parse_expr(src, toks, pos, min).1 <= toks.len(),
    decreases toks.len() - pos, 1int,
{
    lemma_partial_parse_bounds(src, toks, pos, min);
}

/// The infix fold never rewinds and never leaves the stream.
pub proof fn lemma_infix_loop_bounds(
    src: Seq<u8>,
    toks: Seq<Span<Token>>,
    pos: int,
    min: int,
    left: Result<NodeV, Seq<Span<ErrorTypeV>>>,
)
    requires
        0 <= pos <= toks.len(),
    ensures
        pos <= spec_infix_loop(src, toks, pos, min, left).1 <= toks.len(),
    decreases toks.len() - pos, 4int,
{
    if pos < toks.len() {
        let t = toks[pos];
        match spec_infix_bp(t.note) {
            None => {},
            Some(bp) => if bp >= min {
                lemma_infix_bounds(src, toks, pos + 1, t, left, bp);
                let ir = spec_infix(src, toks, pos + 1, t, left, bp);
                let p2 = bounded(ir.1, pos + 1, toks.len() as int);
                lemma_infix_loop_bounds(src, toks, p2, min, ir.0);
            },
        }
    }
}

/// Every prefix form consumes within the stream.
pub proof fn lemma_prefix_bounds(src: Seq<u8>, toks: Seq<Span<Token>>, pos: int, t: Span<Token>)
    requires
        0 <= pos <= toks.len(),
    ensures
        pos <= spec_prefix(src, toks, pos, t).1 <= toks.len(),
    decreases toks.len() - pos, 3int,
{
    match t.note {
        Token::Keyword(Keyword::Clone) => lemma_unary_bounds(src, toks, pos, t, Unary::Clone),
        Token::Operator(Operator::Plus) => lemma_unary_bounds(src, toks, pos, t, Unary::Plus),
        Token::Operator(Operator::Minus) => lemma_unary_bounds(src, toks, pos, t, Unary::Minus),
        Token::Operator(Operator::Bang) => lemma_unary_bounds(src, toks, pos, t, Unary::Not),
        Token::Operator(Operator::Amp) => lemma_unary_bounds(src, toks, pos, t, Unary::Ref),
        Token::Operator(Operator::DoubleAmp) => lemma_parse_expr_bounds(src, toks, pos, 90),
        Token::Bracket(Opening::Open, Bracket::Paren) => lemma_parse_expr_bounds(src, toks, pos, 0),
        _ => {},
    }
}

/// A unary wrapper consumes within the stream.
pub proof fn lemma_unary_bounds(
    src: Seq<u8>,
    toks: Seq<Span<Token>>,
    pos: int,
    t: Span<Token>,
    u: Unary,
)
    requires
        0 <= pos <= toks.len(),
    ensures
        pos <= spec_unary(src, toks, pos, t, u).1 <= toks.len(),
    decreases toks.len() - pos, 2int,
{
    lemma_parse_expr_bounds(src, toks, pos, 90);
}

/// Every infix parselet consumes within the stream.
pub proof fn lemma_infix_bounds(
    src: Seq<u8>,
    toks: Seq<Span<Token>>,
    pos: int,
    t: Span<Token>,
    left: Result<NodeV, Seq<Span<ErrorTypeV>>>,
    bp: int,
)
    requires
        0 <= pos <= toks.len(),
    ensures
        pos <= spec_infix(src, toks, pos, t, left, bp).1 <= toks.len(),
    decreases toks.len() - pos, 3int,
{
    match t.note {
        Token::Operator(Operator::Dot) => {},
        Token::Operator(Operator::LeftArrow) => lemma_partial_parse_bounds(src, toks, pos, 19),
        Token::Operator(Operator::Question) => {
            if 0 <= pos < toks.len() && toks[pos].note == Token::Operator(Operator::Dot) {
            } else if 0 <= pos < toks.len() && toks[pos].note == Token::Bracket(
                Opening::Open,
                Bracket::Bracket,
            ) {
                lemma_index_bounds(src, toks, pos + 1, t.from, left, true);
            }
        },
        Token::Bracket(Opening::Open, Bracket::Bracket) => lemma_index_bounds(
            src,
            toks,
            pos,
            t.from,
            left,
            false,
        ),
        Token::Operator(op) => lemma_partial_parse_bounds(src, toks, pos, bp + 1),
        _ => {},
    }
}

/// The index-or-slice parselet consumes within the stream.
pub proof fn lemma_index_bounds(
    src: Seq<u8>,
    toks: Seq<Span<Token>>,
    pos: int,
    anchor: usize,
    left: Result<NodeV, Seq<Span<ErrorTypeV>>>,
    optional: bool,
)
    requires
        0 <= pos <= toks.len(),
    ensures
        pos <= spec_index_or_slice(src, toks, pos, anchor, left, optional).1 <= toks.len(),
    decreases toks.len() - pos, 2int,
{
    let close = Token::Bracket(Opening::Close, Bracket::Bracket);
    if 0 <= pos < toks.len() && toks[pos].note != close {
        let has_from = !spec_range_op(toks[pos].note);
        if has_from {
            lemma_parse_expr_bounds(src, toks, pos, 0);
        }
        let fr = if has_from {
            spec_parse_expr(src, toks, pos, 0)
        } else {
            (Ok(leafv(NodeType::Ident, toks[pos])), pos)
        };
        let p1 = bounded(fr.1, pos, toks.len() as int);
        let has_op = 0 <= p1 < toks.len() && spec_range_op(toks[p1].note);
        let p2 = if has_op {
            p1 + 1
        } else {
            p1
        };
        let has_to = has_op && 0 <= p2 < toks.len() && toks[p2].note != close;
        if has_to {
            lemma_parse_expr_bounds(src, toks, p2, 0);
        }
    }
}

/// What an executable parse step returns: the tree or the errors.
pub type ParseOut = Result<Node, Vec<Error>>;

/// The mathematical shape of an executable parse result.
pub open spec fn out_view(r: ParseOut) -> Result<NodeV, Seq<Span<ErrorTypeV>>> {
    match r {
        Ok(n) => Ok(node_view(n)),
        Err(e) => Err(errors_view(e@)),
    }
}

/// A single-error list.
pub fn err1(kind: ErrorType, from: usize, to: usize) -> (es: Vec<Error>)
    ensures
        errors_view(es@) == seq![Span { note: error_type_view(kind), from, to }],
{
    let ghost k = error_type_view(kind);
    let mut es: Vec<Error> = Vec::new();
    es.push(Span { note: kind, from, to });
    proof {
        assert(errors_view(es@) =~= seq![Span { note: k, from, to }]);
    }
    es
}

/// The infix binding power of a token, if it has one.
fn infix_bp(tok: Token) -> (r: Option<u8>)
    ensures
        r is Some <==> spec_infix_bp(tok) is Some,
        r matches Some(bp) ==> spec_infix_bp(tok) == Some(bp as int),
{
    match tok {
        Token::Operator(op) => match op {
            Operator::Dot => Some(100),
            Operator::Question => Some(100),
            Operator::Star => Some(80),
            Operator::Slash => Some(80),
            Operator::DoubleSlash => Some(80),
            Operator::Percent => Some(80),
            Operator::Plus => Some(70),
            Operator::Minus => Some(70),
            Operator::DoublePlus => Some(70),
            Operator::DoubleEqual => Some(60),
            Operator::NotEqual => Some(60),
            Operator::Less => Some(60),
            Operator::LessEqual => Some(60),
            Operator::Greater => Some(60),
            Operator::GreaterEqual => Some(60),
            Operator::Amp => Some(50),
            Operator::DoubleAmp => Some(50),
            Operator::Pipe => Some(40),
            Operator::DoublePipe => Some(40),
            Operator::DoubleQuestion => Some(30),
            Operator::LeftArrow => Some(19),
            _ => None,
        },
        Token::Bracket(Opening::Open, Bracket::Bracket) => Some(100),
        _ => None,
    }
}

/// A range operator token.
#[verifier::when_used_as_spec(spec_range_op)]
pub fn range_op(tok: Token) -> (r: bool)
    ensures
        r == spec_range_op(tok),
{
    match tok {
        Token::Operator(op) => matches!(
            op,
            Operator::DoubleDot
                | Operator::DoubleDotEqual
                | Operator::GreaterDoubleDot
                | Operator::GreaterDoubleDotEqual
        ),
        _ => false,
    }
}

/// Whether the bytes of `from..to` are digits and underscores only.
pub fn int_shape_range(src: &[u8], from: usize, to: usize) -> (r: bool)
    requires
        from <= to <= src@.len(),
    ensures
        r == int_shape(src@.subrange(from as int, to as int)),
{
    let ghost w = src@.subrange(from as int, to as int);
    let mut j = from;
    while j < to
        invariant
            from <= j <= to <= src@.len(),
            w == src@.subrange(from as int, to as int),
            forall|k: int|
                0 <= k < j - from ==> crate::ascii::spec_digit(#[trigger] w[k]) || w[k]
                    == crate::ascii::UNDERSCORE,
        decreases to - j,
    {
        let b = src[j];
        proof {
            assert(w[j - from] == src@[j as int]);
        }
        if !(crate::ascii::digit(b) || b == crate::ascii::UNDERSCORE) {
            proof {
                assert(!int_shape(w));
            }
            return false;
        }
        j = j + 1;
    }
    true
}

/// Parse one expression from `pos`: the executable form of
/// `spec_partial_parse`.
pub fn partial_parse_at(src: &[u8], toks: &Vec<Span<Token>>, pos: usize, min: u8) -> (r: (
    ParseOut,
    usize,
))
    requires
        pos <= toks@.len(),
        crate::scanner::tokens_wf(toks@, src@.len() as int),
    ensures
        out_view(r.0) == spec_partial_parse(src@, toks@, pos as int, min as int).0,
        r.1 as int == spec_partial_parse(src@, toks@, pos as int, min as int).1,
        pos <= r.1 <= toks@.len(),
    decreases toks@.len() - pos, 0int,
{
    let n = toks.len();
    if pos >= n {
        let end = src.len();
        (Err(err1(ErrorType::SuddenEof, end, end)), pos)
    } else {
        let t = toks[pos];
        let (left, p1) = crate::prefix::prefix_parselet(src, toks, pos + 1, t);
        proof {
            lemma_prefix_bounds(src@, toks@, pos + 1, t);
        }
        infix_loop_at(src, toks, p1, min, left)
    }
}

/// `partial_parse_at`, then the check that the result denotes a value.
pub fn parse_expr_at(src: &[u8], toks: &Vec<Span<Token>>, pos: usize, min: u8) -> (r: (
    ParseOut,
    usize,
))
    requires
        pos <= toks@.len(),
        crate::scanner::tokens_wf(toks@, src@.len() as int),
    ensures
        out_view(r.0) == spec_parse_expr(src@, toks@, pos as int, min as int).0,
        r.1 as int == spec_parse_expr(src@, toks@, pos as int, min as int).1,
        pos <= r.1 <= toks@.len(),
    decreases toks@.len() - pos, 1int,
{
    let (res, p) = partial_parse_at(src, toks, pos, min);
    match res {
        Ok(nd) => {
            if nd.node.expr() {
                (Ok(nd), p)
            } else {
                let es = err1(ErrorType::NonExprOperand, nd.from, nd.to);
                (Err(es), p)
            }
        },
        Err(es) => (Err(es), p),
    }
}

/// Fold infix operators onto `left`: the executable form of
/// `spec_infix_loop`.
fn infix_loop_at(src: &[u8], toks: &Vec<Span<Token>>, pos: usize, min: u8, left: ParseOut) -> (r: (
    ParseOut,
    usize,
))
    requires
        pos <= toks@.len(),
        crate::scanner::tokens_wf(toks@, src@.len() as int),
    ensures
        out_view(r.0) == spec_infix_loop(src@, toks@, pos as int, min as int, out_view(left)).0,
        r.1 as int == spec_infix_loop(src@, toks@, pos as int, min as int, out_view(left)).1,
        pos <= r.1 <= toks@.len(),
    decreases toks@.len() - pos, 4int,
{
    let n = toks.len();
    if pos >= n {
        (left, pos)
    } else {
        let t = toks[pos];
        match infix_bp(t.note) {
            None => (left, pos),
            Some(bp) => {
                if bp < min {
                    (left, pos)
                } else {
                    let (res, p2) = crate::infix::infix_parselet(src, toks, pos + 1, t, left, bp);
                    proof {
                        lemma_infix_bounds(src@, toks@, pos + 1, t, out_view(left), bp as int);
                    }
                    infix_loop_at(src, toks, p2, min, res)
                }
            },
        }
    }
}

/// The minimum binding power each public precedence level stands for:
/// level 0 admits everything, assignment included; level 1 shuts
/// assignment out; each further level shuts out one more band of binary
/// operators; level 6 is the unary-operand level, where only member
/// access, optional access and indexing still bind.
pub open spec fn spec_level_bp(level: int) -> int {
    if level == 0 {
        0
    } else if level == 1 {
        20
    } else if level == 2 {
        30
    } else if level == 3 {
        40
    } else if level == 4 {
        50
    } else if level == 5 {
        60
    } else if level == 6 {
        90
    } else {
        101
    }
}

/// The minimum binding power of a precedence level.
pub fn level_bp(level: u8) -> (r: u8)
    ensures
        r as int == spec_level_bp(level as int),
{
    if level == 0 {
        0
    } else if level == 1 {
        20
    } else if level == 2 {
        30
    } else if level == 3 {
        40
    } else if level == 4 {
        50
    } else if level == 5 {
        60
    } else if level == 6 {
        90
    } else {
        101
    }
}

/// The byte offset where the unconsumed input begins: the start of the
/// next unconsumed token, or the end of the buffer.
pub open spec fn spec_remaining(src: Seq<u8>, toks: Seq<Span<Token>>, pos: int) -> usize {
    if 0 <= pos < toks.len() {
        toks[pos].from
    } else {
        src.len() as usize
    }
}

/// The peekable stream of significant tokens the parser climbs over.
pub struct Parser<'a> {
    pub src: &'a [u8],
    pub tokens: Vec<Span<Token>>,
    pub pos: usize,
}

impl<'a> Parser<'a> {
    /// The parser's well-formedness: the cursor stays on the stream and
    /// every token spans real bytes of the buffer.
    pub open spec fn wf(self) -> bool {
        self.pos <= self.tokens@.len() && crate::scanner::tokens_wf(
            self.tokens@,
            self.src@.len() as int,
        )
    }

    /// Start parsing `src` from its first significant token.
    pub fn new(src: &'a str) -> (p: Parser<'a>)
        ensures
            p.wf(),
            p.src@ == src.spec_bytes(),
            p.tokens@ == crate::scanner::significant_tokens(
                crate::scanner::spec_tokens(src.spec_bytes()),
            ),
            p.pos == 0,
    {
        let bytes = src.as_bytes();
        let end = bytes.len();
        let toks = crate::scanner::tokenize_bytes(bytes);
        let sig = crate::scanner::filter_significant(&toks);
        proof {
            assert(bytes@.len() == end);
            crate::scanner::lemma_spec_tokens_wf(bytes@, 0);
            crate::scanner::lemma_significant_wf(toks@, bytes@.len() as int);
        }
        Parser { src: bytes, tokens: sig, pos: 0 }
    }

    /// Parse one expression, folding in every infix operator whose binding
    /// power reaches `min_precedence`: exactly what `spec_partial_parse`
    /// says, cursor movement included.
    pub fn partial_parse(&mut self, min_precedence: u8) -> (r: ParseOut)
        requires
            old(self).wf(),
        ensures
            final(self).wf(),
            final(self).src == old(self).src,
            final(self).tokens == old(self).tokens,
            out_view(r) == spec_partial_parse(
                old(self).src@,
                old(self).tokens@,
                old(self).pos as int,
                min_precedence as int,
            ).0,
            final(self).pos as int == spec_partial_parse(
                old(self).src@,
                old(self).tokens@,
                old(self).pos as int,
                min_precedence as int,
            ).1,
            old(self).pos <= final(self).pos,
    {
        let (r, p) = partial_parse_at(self.src, &self.tokens, self.pos, min_precedence);
        self.pos = p;
        r
    }

    /// `partial_parse`, then the check that the result denotes a value:
    /// exactly what `spec_parse_expr` says.
    pub fn parse_expr(&mut self, min_precedence: u8) -> (r: ParseOut)
        requires
            old(self).wf(),
        ensures
            final(self).wf(),
            final(self).src == old(self).src,
            final(self).tokens == old(self).tokens,
            out_view(r) == spec_parse_expr(
                old(self).src@,
                old(self).tokens@,
                old(self).pos as int,
                min_precedence as int,
            ).0,
            final(self).pos as int == spec_parse_expr(
                old(self).src@,
                old(self).tokens@,
                old(self).pos as int,
                min_precedence as int,
            ).1,
            old(self).pos <= final(self).pos,
    {
        let (r, p) = parse_expr_at(self.src, &self.tokens, self.pos, min_precedence);
        self.pos = p;
        r
    }

    /// The byte offset where the unconsumed input begins.
    pub fn rest_from(&self) -> (r: usize)
        requires
            self.wf(),
        ensures
            r == spec_remaining(self.src@, self.tokens@, self.pos as int),
    {
        if self.pos < self.tokens.len() {
            self.tokens[self.pos].from
        } else {
            self.src.len()
        }
    }
}

/// Parse one expression of `src` at the given precedence level, and report
/// the byte offset where the unconsumed input begins.
pub fn expr(src: &str, precedence: u8) -> (r: (ParseOut, usize))
    ensures
        ({
            let bytes = src.spec_bytes();
            let toks = crate::scanner::significant_tokens(crate::scanner::spec_tokens(bytes));
            let pr = spec_parse_expr(bytes, toks, 0, spec_level_bp(precedence as int));
            out_view(r.0) == pr.0 && r.1 == spec_remaining(bytes, toks, pr.1)
        }),
        r.0 is Err ==> r.0->Err_0@.len() > 0,
{
    proof {
        lemma_parse_expr_nonempty(
            src.spec_bytes(),
            crate::scanner::significant_tokens(crate::scanner::spec_tokens(src.spec_bytes())),
            0,
            spec_level_bp(precedence as int),
        );
    }
    let mut parser = Parser::new(src);
    let res = parser.parse_expr(level_bp(precedence));
    let rest = parser.rest_from();
    (res, rest)
}

/// Parsing stops only at the end of input or before a token that does not
/// bind at the minimum precedence asked for: what a caller of
/// `partial_parse` may rely on for the tokens it leaves unconsumed.
pub proof fn lemma_parse_respects_precedence(
    src: Seq<u8>,
    toks: Seq<Span<Token>>,
    pos: int,
    min: int,
)
    requires
        0 <= pos <= toks.len(),
    ensures
        ({
            let p = spec_partial_parse(src, toks, pos, min).1;
            p == toks.len() || (match spec_infix_bp(toks[p].note) {
                None => true,
                Some(bp) => bp < min,
            })
        }),
{
    if pos < toks.len() {
        let t = toks[pos];
        lemma_prefix_bounds(src, toks, pos + 1, t);
        let pr = spec_prefix(src, toks, pos + 1, t);
        let p1 = bounded(pr.1, pos + 1, toks.len() as int);
        lemma_infix_loop_stops(src, toks, p1, min, pr.0);
    }
}

/// The infix fold stops only at the end of input or before a token that
/// does not bind at the minimum precedence.
pub proof fn lemma_infix_loop_stops(
    src: Seq<u8>,
    toks: Seq<Span<Token>>,
    pos: int,
    min: int,
    left: Result<NodeV, Seq<Span<ErrorTypeV>>>,
)
    requires
        0 <= pos <= toks.len(),
    ensures
        ({
            let p = spec_infix_loop(src, toks, pos, min, left).1;
            p == toks.len() || (match spec_infix_bp(toks[p].note) {
                None => true,
                Some(bp) => bp < min,
            })
        }),
    decreases toks.len() - pos,
{
    if pos < toks.len() {
        let t = toks[pos];
        match spec_infix_bp(t.note) {
            None => {},
            Some(bp) => {
                if bp >= min {
                    lemma_infix_bounds(src, toks, pos + 1, t, left, bp);
                    let ir = spec_infix(src, toks, pos + 1, t, left, bp);
                    let p2 = bounded(ir.1, pos + 1, toks.len() as int);
                    lemma_infix_loop_stops(src, toks, p2, min, ir.0);
                }
            },
        }
    }
}

/// A failed parse step always carries at least one error. `left_ok` is the
/// same guarantee assumed of the left operand already in hand.
pub open spec fn err_nonempty(r: Result<NodeV, Seq<Span<ErrorTypeV>>>) -> bool {
    r is Err ==> r->Err_0.len() > 0
}

/// `spec_partial_parse` never fails with an empty error list.
pub proof fn lemma_partial_parse_nonempty(src: Seq<u8>, toks: Seq<Span<Token>>, pos: int, min: int)
    ensures
        err_nonempty(spec_partial_parse(src, toks, pos, min).0),
    decreases toks.len() - pos, 0int,
{
    if 0 <= pos < toks.len() {
        let t = toks[pos];
        lemma_prefix_nonempty(src, toks, pos + 1, t);
        let pr = spec_prefix(src, toks, pos + 1, t);
        let p1 = bounded(pr.1, pos + 1, toks.len() as int);
        lemma_infix_loop_nonempty(src, toks, p1, min, pr.0);
    }
}

/// `spec_parse_expr` never fails with an empty error list.
pub proof fn lemma_parse_expr_nonempty(src: Seq<u8>, toks: Seq<Span<Token>>, pos: int, min: int)
    ensures
        err_nonempty(spec_parse_expr(src, toks, pos, min).0),
    decreases toks.len() - pos, 1int,
{
    lemma_partial_parse_nonempty(src, toks, pos, min);
}

/// The infix fold preserves non-emptiness of failures.
pub proof fn lemma_infix_loop_nonempty(
    src: Seq<u8>,
    toks: Seq<Span<Token>>,
    pos: int,
    min: int,
    left: Result<NodeV, Seq<Span<ErrorTypeV>>>,
)
    requires
        err_nonempty(left),
    ensures
        err_nonempty(spec_infix_loop(src, toks, pos, min, left).0),
    decreases toks.len() - pos, 4int,
{
    if 0 <= pos < toks.len() {
        let t = toks[pos];
        match spec_infix_bp(t.note) {
            None => {},
            Some(bp) => if bp >= min {
                lemma_infix_nonempty(src, toks, pos + 1, t, left, bp);
                let ir = spec_infix(src, toks, pos + 1, t, left, bp);
                let p2 = bounded(ir.1, pos + 1, toks.len() as int);
                lemma_infix_loop_nonempty(src, toks, p2, min, ir.0);
            },
        }
    }
}

/// Every prefix form fails with at least one error.
pub proof fn lemma_prefix_nonempty(src: Seq<u8>, toks: Seq<Span<Token>>, pos: int, t: Span<Token>)
    ensures
        err_nonempty(spec_prefix(src, toks, pos, t).0),
    decreases toks.len() - pos, 3int,
{
    match t.note {
        Token::Keyword(Keyword::Clone) => lemma_unary_nonempty(src, toks, pos, t, Unary::Clone),
        Token::Operator(Operator::Plus) => lemma_unary_nonempty(src, toks, pos, t, Unary::Plus),
        Token::Operator(Operator::Minus) => lemma_unary_nonempty(src, toks, pos, t, Unary::Minus),
        Token::Operator(Operator::Bang) => lemma_unary_nonempty(src, toks, pos, t, Unary::Not),
        Token::Operator(Operator::Amp) => lemma_unary_nonempty(src, toks, pos, t, Unary::Ref),
        Token::Operator(Operator::DoubleAmp) => lemma_parse_expr_nonempty(src, toks, pos, 90),
        Token::Bracket(Opening::Open, Bracket::Paren) => lemma_parse_expr_nonempty(
            src,
            toks,
            pos,
            0,
        ),
        _ => {},
    }
}

/// A unary wrapper fails with at least one error.
pub proof fn lemma_unary_nonempty(
    src: Seq<u8>,
    toks: Seq<Span<Token>>,
    pos: int,
    t: Span<Token>,
    u: Unary,
)
    ensures
        err_nonempty(spec_unary(src, toks, pos, t, u).0),
    decreases toks.len() - pos, 2int,
{
    lemma_parse_expr_nonempty(src, toks, pos, 90);
}

/// Every infix parselet fails with at least one error.
pub proof fn lemma_infix_nonempty(
    src: Seq<u8>,
    toks: Seq<Span<Token>>,
    pos: int,
    t: Span<Token>,
    left: Result<NodeV, Seq<Span<ErrorTypeV>>>,
    bp: int,
)
    requires
        err_nonempty(left),
    ensures
        err_nonempty(spec_infix(src, toks, pos, t, left, bp).0),
    decreases toks.len() - pos, 3int,
{
    match t.note {
        Token::Operator(Operator::Dot) => {},
        Token::Operator(Operator::LeftArrow) => lemma_partial_parse_nonempty(src, toks, pos, 19),
        Token::Operator(Operator::Question) => {
            if 0 <= pos < toks.len() && toks[pos].note == Token::Operator(Operator::Dot) {
            } else if 0 <= pos < toks.len() && toks[pos].note == Token::Bracket(
                Opening::Open,
                Bracket::Bracket,
            ) {
                lemma_index_nonempty(src, toks, pos + 1, t.from, left, true);
            }
        },
        Token::Bracket(Opening::Open, Bracket::Bracket) => lemma_index_nonempty(
            src,
            toks,
            pos,
            t.from,
            left,
            false,
        ),
        Token::Operator(op) => lemma_partial_parse_nonempty(src, toks, pos, bp + 1),
        _ => {},
    }
}

/// The index-or-slice parselet fails with at least one error.
pub proof fn lemma_index_nonempty(
    src: Seq<u8>,
    toks: Seq<Span<Token>>,
    pos: int,
    anchor: usize,
    left: Result<NodeV, Seq<Span<ErrorTypeV>>>,
    optional: bool,
)
    requires
        err_nonempty(left),
    ensures
        err_nonempty(spec_index_or_slice(src, toks, pos, anchor, left, optional).0),
    decreases toks.len() - pos, 2int,
{
    let close = Token::Bracket(Opening::Close, Bracket::Bracket);
    if 0 <= pos < toks.len() && toks[pos].note != close {
        let has_from = !spec_range_op(toks[pos].note);
        if has_from {
            lemma_parse_expr_nonempty(src, toks, pos, 0);
        }
        let fr = if has_from {
            spec_parse_expr(src, toks, pos, 0)
        } else {
            (Ok(leafv(NodeType::Ident, toks[pos])), pos)
        };
        let p1 = bounded(fr.1, pos, toks.len() as int);
        let has_op = 0 <= p1 < toks.len() && spec_range_op(toks[p1].note);
        let p2 = if has_op {
            p1 + 1
        } else {
            p1
        };
        let has_to = has_op && 0 <= p2 < toks.len() && toks[p2].note != close;
        if has_to {
            lemma_parse_expr_nonempty(src, toks, p2, 0);
        }
    }
}

/// Assigning into a left operand that is not a place fails, and the first
/// error reported is `NonPlace` at that operand's span; whatever else the
/// right side contributes follows it.
pub proof fn lemma_assign_non_place(src: Seq<u8>, toks: Seq<Span<Token>>, pos: int, n: NodeV)
    requires
        !n.node.spec_place(),
    ensures
        ({
            let r = spec_assign(src, toks, pos, Ok(n)).0;
            r is Err && r->Err_0.len() >= 1 && r->Err_0[0] == ev(
                ErrorTypeV::NonPlace,
                n.from,
                n.to,
            )
        }),
{
}

} // verus!
