//! The prefix parselets: the executable forms invoked when a token starts
//! an expression with no left operand yet. Each is proved to return exactly
//! what the reference parser says.

use vstd::prelude::*;

use crate::error::errors_view;
use crate::error::ErrorType;
use crate::node::node_view;
use crate::node::nodes_view;
use crate::node::Node;
use crate::node_type::NodeType;
use crate::node_type::Unary;
use crate::parser;
use crate::parser::out_view;
use crate::parser::ParseOut;
use crate::span::Span;
use crate::token::Bracket;
use crate::token::Keyword;
use crate::token::Opening;
use crate::token::Operator;
use crate::token::Token;
use crate::token::TokenKind;

verus! {

/// The expected-kind list naming a closing parenthesis.
fn kinds_close_paren() -> (v: Vec<TokenKind>)
    ensures
        v@ == seq![TokenKind::Bracket(Opening::Close, Bracket::Paren)],
{
    let mut v: Vec<TokenKind> = Vec::new();
    v.push(TokenKind::Bracket(Opening::Close, Bracket::Paren));
    proof {
        assert(v@ =~= seq![TokenKind::Bracket(Opening::Close, Bracket::Paren)]);
    }
    v
}

/// The expected-kind list naming the forms that can begin an expression.
fn kinds_expr_start() -> (v: Vec<TokenKind>)
    ensures
        v@ == parser::expr_start_kinds(),
{
    let mut v: Vec<TokenKind> = Vec::new();
    v.push(TokenKind::Ident);
    v.push(TokenKind::Num);
    v.push(TokenKind::Str);
    v.push(TokenKind::Char);
    v.push(TokenKind::Bracket(Opening::Open, Bracket::Paren));
    proof {
        assert(v@ =~= parser::expr_start_kinds());
    }
    v
}

/// Dispatch a consumed token to its prefix form: the executable form of
/// `spec_prefix`.
pub fn prefix_parselet(src: &[u8], toks: &Vec<Span<Token>>, pos: usize, t: Span<Token>) -> (r: (
    ParseOut,
    usize,
))
    requires
        pos <= toks@.len(),
        crate::scanner::tokens_wf(toks@, src@.len() as int),
        t.from < t.to <= src@.len(),
    ensures
        out_view(r.0) == parser::spec_prefix(src@, toks@, pos as int, t).0,
        r.1 as int == parser::spec_prefix(src@, toks@, pos as int, t).1,
        pos <= r.1 <= toks@.len(),
    decreases toks@.len() - pos, 3int,
{
    match t.note {
        Token::Keyword(Keyword::True) => (Ok(leaf_node(NodeType::True, t)), pos),
        Token::Keyword(Keyword::False) => (Ok(leaf_node(NodeType::False, t)), pos),
        Token::Keyword(Keyword::Null) => (Ok(leaf_node(NodeType::Null, t)), pos),
        Token::Keyword(Keyword::Clone) => unary_operator(src, toks, pos, t, Unary::Clone),
        Token::Operator(Operator::Plus) => unary_operator(src, toks, pos, t, Unary::Plus),
        Token::Operator(Operator::Minus) => unary_operator(src, toks, pos, t, Unary::Minus),
        Token::Operator(Operator::Bang) => unary_operator(src, toks, pos, t, Unary::Not),
        Token::Operator(Operator::Amp) => unary_operator(src, toks, pos, t, Unary::Ref),
        Token::Operator(Operator::DoubleAmp) => double_ref(src, toks, pos, t),
        Token::Ident => (Ok(leaf_node(NodeType::Ident, t)), pos),
        Token::Num => {
            let nt = if parser::int_shape_range(src, t.from, t.to) {
                NodeType::UInt
            } else {
                NodeType::Float
            };
            (Ok(leaf_node(nt, t)), pos)
        },
        Token::Str => (Ok(leaf_node(NodeType::Str, t)), pos),
        Token::Char => (Ok(leaf_node(NodeType::Char, t)), pos),
        Token::UnterminatedQuote => (
            Err(parser::err1(ErrorType::UnterminatedQuote, t.from, t.to)),
            pos,
        ),
        Token::Unknown => (Err(parser::err1(ErrorType::UnknownToken, t.from, t.to)), pos),
        Token::Bracket(Opening::Open, Bracket::Paren) => group(src, toks, pos, t),
        _ => (
            Err(
                parser::err1(ErrorType::NoExpectation(kinds_expr_start()), t.from, t.to),
            ),
            pos,
        ),
    }
}

/// A leaf node covering one token.
pub(crate) fn leaf_node(nt: NodeType, t: Span<Token>) -> (n: Node)
    ensures
        node_view(n) == parser::leafv(nt, t),
{
    let n = Node { node: nt, from: t.from, to: t.to, children: Vec::new() };
    proof {
        crate::node::lemma_nodes_view(n.children@);
        assert(nodes_view(n.children@) =~= Seq::<crate::node::NodeV>::empty());
    }
    n
}

/// A unary wrapper: parse the operand at 90 and wrap it.
fn unary_operator(src: &[u8], toks: &Vec<Span<Token>>, pos: usize, t: Span<Token>, u: Unary) -> (r: (
    ParseOut,
    usize,
))
    requires
        pos <= toks@.len(),
        crate::scanner::tokens_wf(toks@, src@.len() as int),
    ensures
        out_view(r.0) == parser::spec_unary(src@, toks@, pos as int, t, u).0,
        r.1 as int == parser::spec_unary(src@, toks@, pos as int, t, u).1,
        pos <= r.1 <= toks@.len(),
    decreases toks@.len() - pos, 2int,
{
    let (opr, p1) = parser::parse_expr_at(src, toks, pos, 90);
    match opr {
        Ok(nd) => {
            let to = nd.to;
            let ghost ndv = node_view(nd);
            let mut ch: Vec<Node> = Vec::new();
            ch.push(nd);
            proof {
                crate::node::lemma_nodes_view(ch@);
                assert(nodes_view(ch@) =~= seq![ndv]);
            }
            (Ok(Node { node: NodeType::Unary(u), from: t.from, to, children: ch }), p1)
        },
        Err(es) => (Err(es), p1),
    }
}

/// A doubled-ref token used prefix: one token, two nested `Ref` nodes, each
/// spanning one byte of it.
fn double_ref(src: &[u8], toks: &Vec<Span<Token>>, pos: usize, t: Span<Token>) -> (r: (
    ParseOut,
    usize,
))
    requires
        pos <= toks@.len(),
        crate::scanner::tokens_wf(toks@, src@.len() as int),
        t.from < t.to <= src@.len(),
    ensures
        out_view(r.0) == parser::spec_double_ref(src@, toks@, pos as int, t).0,
        r.1 as int == parser::spec_double_ref(src@, toks@, pos as int, t).1,
        pos <= r.1 <= toks@.len(),
    decreases toks@.len() - pos, 2int,
{
    let (opr, p1) = parser::parse_expr_at(src, toks, pos, 90);
    match opr {
        Ok(nd) => {
            let to = nd.to;
            let ghost ndv = node_view(nd);
            let mut ch: Vec<Node> = Vec::new();
            ch.push(nd);
            proof {
                crate::node::lemma_nodes_view(ch@);
                assert(nodes_view(ch@) =~= seq![ndv]);
            }
            let inner = Node {
                node: NodeType::Unary(Unary::Ref),
                from: t.from + 1,
                to: t.to,
                children: ch,
            };
            let ghost innerv = node_view(inner);
            let mut outer_ch: Vec<Node> = Vec::new();
            outer_ch.push(inner);
            proof {
                crate::node::lemma_nodes_view(outer_ch@);
                assert(nodes_view(outer_ch@) =~= seq![innerv]);
            }
            (
                Ok(
                    Node {
                        node: NodeType::Unary(Unary::Ref),
                        from: t.from,
                        to: t.from + 1,
                        children: outer_ch,
                    },
                ),
                p1,
            )
        },
        Err(es) => (Err(es), p1),
    }
}

/// A parenthesized group: the inner expression, then the closing paren.
fn group(src: &[u8], toks: &Vec<Span<Token>>, pos: usize, t: Span<Token>) -> (r: (
    ParseOut,
    usize,
))
    requires
        pos <= toks@.len(),
        crate::scanner::tokens_wf(toks@, src@.len() as int),
    ensures
        out_view(r.0) == parser::spec_group(src@, toks@, pos as int, t).0,
        r.1 as int == parser::spec_group(src@, toks@, pos as int, t).1,
        pos <= r.1 <= toks@.len(),
    decreases toks@.len() - pos, 2int,
{
    let n = toks.len();
    let (inner, p1) = parser::parse_expr_at(src, toks, pos, 0);
    if p1 < n && toks[p1].note == Token::Bracket(Opening::Close, Bracket::Paren) {
        (inner, p1 + 1)
    } else {
        let anchor = if p1 < n {
            toks[p1].from
        } else {
            src.len()
        };
        let e = Span { note: ErrorType::NoExpectation(kinds_close_paren()), from: anchor, to: anchor };
        let ghost evv = crate::error::error_view(e);
        match inner {
            Ok(_) => {
                let mut es: Vec<crate::error::Error> = Vec::new();
                es.push(e);
                proof {
                    assert(errors_view(es@) =~= seq![evv]);
                }
                (Err(es), p1)
            },
            Err(mut es) => {
                let ghost es0 = errors_view(es@);
                es.push(e);
                proof {
                    assert(errors_view(es@) =~= es0 + seq![evv]);
                }
                (Err(es), p1)
            },
        }
    }
}

} // verus!
