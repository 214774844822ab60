//! The infix parselets: the executable forms invoked with an already-parsed
//! left operand and the next operator token. Each is proved to return
//! exactly what the reference parser says. Every parselet that combines two
//! sub-parses concatenates their error lists instead of stopping at the
//! first fault.

use vstd::prelude::*;

use crate::error::aggregate_error;
use crate::error::errors_view;
use crate::error::lemma_errors_view_add;
use crate::error::Error;
use crate::error::ErrorType;
use crate::node::node_view;
use crate::node::nodes_view;
use crate::node::Node;
use crate::node::NodeV;
use crate::node_type::Binary;
use crate::node_type::NodeType;
use crate::parser;
use crate::parser::out_view;
use crate::parser::range_op;
use crate::parser::ParseOut;
use crate::prefix::leaf_node;
use crate::span::Span;
use crate::token::Bracket;
use crate::token::Opening;
use crate::token::Operator;
use crate::token::Token;
use crate::token::TokenKind;

verus! {

/// The expected-kind list naming an identifier.
fn kinds_ident() -> (v: Vec<TokenKind>)
    ensures
        v@ == seq![TokenKind::Ident],
{
    let mut v: Vec<TokenKind> = Vec::new();
    v.push(TokenKind::Ident);
    proof {
        assert(v@ =~= seq![TokenKind::Ident]);
    }
    v
}

/// The expected-kind list naming a closing square bracket.
fn kinds_close_bracket() -> (v: Vec<TokenKind>)
    ensures
        v@ == seq![TokenKind::Bracket(Opening::Close, Bracket::Bracket)],
{
    let mut v: Vec<TokenKind> = Vec::new();
    v.push(TokenKind::Bracket(Opening::Close, Bracket::Bracket));
    proof {
        assert(v@ =~= seq![TokenKind::Bracket(Opening::Close, Bracket::Bracket)]);
    }
    v
}

/// The expected-kind list naming a dot or an opening square bracket.
fn kinds_dot_or_bracket() -> (v: Vec<TokenKind>)
    ensures
        v@ == seq![
            TokenKind::Operator(Operator::Dot),
            TokenKind::Bracket(Opening::Open, Bracket::Bracket),
        ],
{
    let mut v: Vec<TokenKind> = Vec::new();
    v.push(TokenKind::Operator(Operator::Dot));
    v.push(TokenKind::Bracket(Opening::Open, Bracket::Bracket));
    proof {
        assert(v@ =~= seq![
            TokenKind::Operator(Operator::Dot),
            TokenKind::Bracket(Opening::Open, Bracket::Bracket),
        ]);
    }
    v
}

/// Pair two sub-parses into a node of kind `nt`, or concatenate their
/// error lists, left first.
fn combine_nodes(left: ParseOut, right: ParseOut, nt: NodeType) -> (r: ParseOut)
    ensures
        out_view(r) == ({
            let sf = match out_view(left) {
                Ok(l) => l.from,
                Err(_) => 0usize,
            };
            let st = match out_view(right) {
                Ok(rn) => rn.to,
                Err(_) => 0usize,
            };
            parser::combine(out_view(left), out_view(right), nt, sf, st)
        }),
{
    let ghost lv = out_view(left);
    let ghost rv = out_view(right);
    match aggregate_error(left, right) {
        Ok(pair) => {
            let (l, rn) = pair;
            let from = l.from;
            let to = rn.to;
            let ghost lnv = node_view(l);
            let ghost rnv = node_view(rn);
            let mut ch: Vec<Node> = Vec::new();
            ch.push(l);
            proof {
                crate::node::lemma_nodes_view(ch@);
                assert(nodes_view(ch@) =~= seq![lnv]);
            }
            let ghost ch1 = ch@;
            ch.push(rn);
            proof {
                crate::node::lemma_nodes_view(ch@);
                assert(nodes_view(ch@) =~= seq![lnv, rnv]);
            }
            Ok(Node { node: nt, from, to, children: ch })
        },
        Err(es) => {
            proof {
                if lv is Err && rv is Err {
                    lemma_errors_view_add(left->Err_0@, right->Err_0@);
                }
            }
            Err(es)
        },
    }
}

/// Dispatch a consumed infix token to its parselet: the executable form of
/// `spec_infix`.
pub fn infix_parselet(
    src: &[u8],
    toks: &Vec<Span<Token>>,
    pos: usize,
    t: Span<Token>,
    left: ParseOut,
    bp: u8,
) -> (r: (ParseOut, usize))
    requires
        pos <= toks@.len(),
        crate::scanner::tokens_wf(toks@, src@.len() as int),
        parser::spec_infix_bp(t.note) == Some(bp as int),
        bp <= 100,
    ensures
        out_view(r.0) == parser::spec_infix(
            src@,
            toks@,
            pos as int,
            t,
            out_view(left),
            bp as int,
        ).0,
        r.1 as int == parser::spec_infix(src@, toks@, pos as int, t, out_view(left), bp as int).1,
        pos <= r.1 <= toks@.len(),
    decreases toks@.len() - pos, 3int,
{
    match t.note {
        Token::Operator(Operator::Dot) => property_access(toks, pos, t, left, NodeType::Property),
        Token::Operator(Operator::LeftArrow) => assign(src, toks, pos, left),
        Token::Operator(Operator::Question) => question(src, toks, pos, t, left),
        Token::Bracket(Opening::Open, Bracket::Bracket) => index_or_slice(
            src,
            toks,
            pos,
            t.from,
            left,
            false,
        ),
        Token::Operator(op) => expr_operator(src, toks, pos, left, op, bp),
        _ => (left, pos),
    }
}

/// A generic binary operator: parse the right operand one notch above the
/// operator's own power and combine.
fn expr_operator(
    src: &[u8],
    toks: &Vec<Span<Token>>,
    pos: usize,
    left: ParseOut,
    op: Operator,
    bp: u8,
) -> (r: (ParseOut, usize))
    requires
        pos <= toks@.len(),
        crate::scanner::tokens_wf(toks@, src@.len() as int),
        parser::spec_binary_op(op),
        bp <= 100,
    ensures
        out_view(r.0) == parser::spec_expr_operator(
            src@,
            toks@,
            pos as int,
            out_view(left),
            parser::binary_of(op),
            bp as int,
        ).0,
        r.1 as int == parser::spec_expr_operator(
            src@,
            toks@,
            pos as int,
            out_view(left),
            parser::binary_of(op),
            bp as int,
        ).1,
        pos <= r.1 <= toks@.len(),
    decreases toks@.len() - pos, 2int,
{
    let kind = binary_kind(op);
    let (right, p2) = parser::partial_parse_at(src, toks, pos, bp + 1);
    (combine_nodes(left, right, NodeType::Binary(kind)), p2)
}

/// The binary node kind of an infix operator token. The original front end
/// panicked when a non-expression operator reached this table, so those
/// operators are left out by precondition instead.
fn binary_kind(op: Operator) -> (r: Binary)
    requires
        parser::spec_binary_op(op),
    ensures
        r == parser::binary_of(op),
{
    match op {
        Operator::Star => Binary::Multiply,
        Operator::Slash => Binary::Div,
        Operator::DoubleSlash => Binary::FloorDiv,
        Operator::Percent => Binary::Mod,
        Operator::Plus => Binary::Add,
        Operator::Minus => Binary::Sub,
        Operator::DoublePlus => Binary::Concatenate,
        Operator::DoubleEqual => Binary::Equal,
        Operator::NotEqual => Binary::NotEqual,
        Operator::Less => Binary::Less,
        Operator::LessEqual => Binary::LessEqual,
        Operator::Greater => Binary::Greater,
        Operator::GreaterEqual => Binary::GreaterEqual,
        Operator::Amp => Binary::And,
        Operator::DoubleAmp => Binary::LazyAnd,
        Operator::Pipe => Binary::Or,
        Operator::DoublePipe => Binary::LazyOr,
        Operator::DoubleQuestion => Binary::NullOr,
        _ => vstd::pervasive::unreached(),
    }
}

/// Assignment: the left operand must be a place; the right side recurses
/// at assignment's own power.
fn assign(src: &[u8], toks: &Vec<Span<Token>>, pos: usize, left: ParseOut) -> (r: (
    ParseOut,
    usize,
))
    requires
        pos <= toks@.len(),
        crate::scanner::tokens_wf(toks@, src@.len() as int),
    ensures
        out_view(r.0) == parser::spec_assign(src@, toks@, pos as int, out_view(left)).0,
        r.1 as int == parser::spec_assign(src@, toks@, pos as int, out_view(left)).1,
        pos <= r.1 <= toks@.len(),
    decreases toks@.len() - pos, 2int,
{
    let left2: ParseOut = match left {
        Ok(nd) => {
            if nd.node.place() {
                Ok(nd)
            } else {
                Err(parser::err1(ErrorType::NonPlace, nd.from, nd.to))
            }
        },
        Err(es) => Err(es),
    };
    let (right, p2) = parser::partial_parse_at(src, toks, pos, 19);
    (combine_nodes(left2, right, NodeType::Assign), p2)
}

/// Property access: the token after the dot must be an identifier.
fn property_access(
    toks: &Vec<Span<Token>>,
    pos: usize,
    t: Span<Token>,
    left: ParseOut,
    kind: NodeType,
) -> (r: (ParseOut, usize))
    requires
        pos <= toks@.len(),
    ensures
        out_view(r.0) == parser::spec_property(toks@, pos as int, t, out_view(left), kind).0,
        r.1 as int == parser::spec_property(toks@, pos as int, t, out_view(left), kind).1,
        pos <= r.1 <= toks@.len(),
{
    let n = toks.len();
    if pos < n && toks[pos].note == Token::Ident {
        match left {
            Ok(l) => {
                let from = l.from;
                let to = toks[pos].to;
                let ghost lnv = node_view(l);
                let mut ch: Vec<Node> = Vec::new();
                ch.push(l);
                proof {
                    crate::node::lemma_nodes_view(ch@);
                    assert(nodes_view(ch@) =~= seq![lnv]);
                }
                (Ok(Node { node: kind, from, to, children: ch }), pos + 1)
            },
            Err(es) => (Err(es), pos + 1),
        }
    } else {
        let e = Span { note: ErrorType::NoExpectation(kinds_ident()), from: t.to, to: t.to };
        let ghost evv = crate::error::error_view(e);
        match left {
            Ok(_) => {
                let mut es: Vec<Error> = Vec::new();
                es.push(e);
                proof {
                    assert(errors_view(es@) =~= seq![evv]);
                }
                (Err(es), pos)
            },
            Err(mut es) => {
                let ghost es0 = errors_view(es@);
                es.push(e);
                proof {
                    assert(errors_view(es@) =~= es0 + seq![evv]);
                }
                (Err(es), pos)
            },
        }
    }
}

/// Optional chaining: `?` must be followed by `.` or `[`.
fn question(src: &[u8], toks: &Vec<Span<Token>>, pos: usize, t: Span<Token>, left: ParseOut) -> (r:
    (ParseOut, usize))
    requires
        pos <= toks@.len(),
        crate::scanner::tokens_wf(toks@, src@.len() as int),
    ensures
        out_view(r.0) == parser::spec_question(src@, toks@, pos as int, t, out_view(left)).0,
        r.1 as int == parser::spec_question(src@, toks@, pos as int, t, out_view(left)).1,
        pos <= r.1 <= toks@.len(),
    decreases toks@.len() - pos, 2int,
{
    let n = toks.len();
    if pos < n && toks[pos].note == Token::Operator(Operator::Dot) {
        property_access(toks, pos + 1, toks[pos], left, NodeType::OptionalProperty)
    } else if pos < n && toks[pos].note == Token::Bracket(Opening::Open, Bracket::Bracket) {
        index_or_slice(src, toks, pos + 1, t.from, left, true)
    } else {
        let e = Span {
            note: ErrorType::NoExpectation(kinds_dot_or_bracket()),
            from: t.to,
            to: t.to,
        };
        let ghost evv = crate::error::error_view(e);
        match left {
            Ok(_) => {
                let mut es: Vec<Error> = Vec::new();
                es.push(e);
                proof {
                    assert(errors_view(es@) =~= seq![evv]);
                }
                (Err(es), pos)
            },
            Err(mut es) => {
                let ghost es0 = errors_view(es@);
                es.push(e);
                proof {
                    assert(errors_view(es@) =~= es0 + seq![evv]);
                }
                (Err(es), pos)
            },
        }
    }
}

/// The node kind of a bracket interior.
fn slice_kind_at(has_from: bool, op: Option<Operator>, has_to: bool, optional: bool) -> (r: Option<
    NodeType,
>)
    ensures
        r == parser::slice_kind(has_from, op, has_to, optional),
{
    match op {
        None => {
            if has_from {
                if optional {
                    Some(NodeType::OptionalIndex)
                } else {
                    Some(NodeType::Index)
                }
            } else {
                None
            }
        },
        Some(o) => {
            let range: Option<crate::node_type::RangeType> = match o {
                Operator::DoubleDot => {
                    if has_from && has_to {
                        Some(crate::node_type::RangeType::InclusiveExclusive)
                    } else if has_from {
                        Some(crate::node_type::RangeType::FromInclusive)
                    } else if has_to {
                        Some(crate::node_type::RangeType::ToExclusive)
                    } else {
                        Some(crate::node_type::RangeType::Full)
                    }
                },
                Operator::DoubleDotEqual => {
                    if has_from && has_to {
                        Some(crate::node_type::RangeType::Inclusive)
                    } else if has_to {
                        Some(crate::node_type::RangeType::ToInclusive)
                    } else {
                        None
                    }
                },
                Operator::GreaterDoubleDot => {
                    if has_from && has_to {
                        Some(crate::node_type::RangeType::Exclusive)
                    } else if has_from {
                        Some(crate::node_type::RangeType::FromExclusive)
                    } else {
                        None
                    }
                },
                Operator::GreaterDoubleDotEqual => {
                    if has_from && has_to {
                        Some(crate::node_type::RangeType::ExclusiveInclusive)
                    } else {
                        None
                    }
                },
                _ => None,
            };
            match range {
                Some(rk) => {
                    if optional {
                        Some(NodeType::OptionalSlice(rk))
                    } else {
                        Some(NodeType::Slice(rk))
                    }
                },
                None => None,
            }
        },
    }
}

/// Index or slice: the bracket interior is a single expression or a
/// from/to pair around a range operator; anything else is
/// `NonIndexNorSlice` spanning from the anchor to the closing bracket.
#[verifier::rlimit(100)]
pub fn index_or_slice(
    src: &[u8],
    toks: &Vec<Span<Token>>,
    pos: usize,
    anchor: usize,
    left: ParseOut,
    optional: bool,
) -> (r: (ParseOut, usize))
    requires
        pos <= toks@.len(),
        crate::scanner::tokens_wf(toks@, src@.len() as int),
    ensures
        out_view(r.0) == parser::spec_index_or_slice(
            src@,
            toks@,
            pos as int,
            anchor,
            out_view(left),
            optional,
        ).0,
        r.1 as int == parser::spec_index_or_slice(
            src@,
            toks@,
            pos as int,
            anchor,
            out_view(left),
            optional,
        ).1,
        pos <= r.1 <= toks@.len(),
    decreases toks@.len() - pos, 2int,
{
    let n = toks.len();
    if pos >= n {
        let end = src.len();
        let e = Span { note: ErrorType::SuddenEof, from: end, to: end };
        let ghost evv = crate::error::error_view(e);
        match left {
            Ok(_) => {
                let mut es: Vec<Error> = Vec::new();
                es.push(e);
                proof {
                    assert(errors_view(es@) =~= seq![evv]);
                }
                (Err(es), pos)
            },
            Err(mut es) => {
                let ghost es0 = errors_view(es@);
                es.push(e);
                proof {
                    assert(errors_view(es@) =~= es0 + seq![evv]);
                }
                (Err(es), pos)
            },
        }
    } else if toks[pos].note == Token::Bracket(Opening::Close, Bracket::Bracket) {
        let e = Span { note: ErrorType::NonIndexNorSlice, from: anchor, to: toks[pos].to };
        let ghost evv = crate::error::error_view(e);
        match left {
            Ok(_) => {
                let mut es: Vec<Error> = Vec::new();
                es.push(e);
                proof {
                    assert(errors_view(es@) =~= seq![evv]);
                }
                (Err(es), pos + 1)
            },
            Err(mut es) => {
                let ghost es0 = errors_view(es@);
                es.push(e);
                proof {
                    assert(errors_view(es@) =~= es0 + seq![evv]);
                }
                (Err(es), pos + 1)
            },
        }
    } else {
        let has_from = !range_op(toks[pos].note);
        let (fr, p1): (ParseOut, usize) = if has_from {
            parser::parse_expr_at(src, toks, pos, 0)
        } else {
            (Ok(leaf_node(NodeType::Ident, toks[pos])), pos)
        };
        let has_op = p1 < n && range_op(toks[p1].note);
        let op_tok: Option<Operator> = if has_op {
            match toks[p1].note {
                Token::Operator(o) => Some(o),
                _ => None,
            }
        } else {
            None
        };
        let p2 = if has_op {
            p1 + 1
        } else {
            p1
        };
        let has_to = has_op && p2 < n && !(toks[p2].note == Token::Bracket(
            Opening::Close,
            Bracket::Bracket,
        ));
        let (tr, p3): (ParseOut, usize) = if has_to {
            parser::parse_expr_at(src, toks, p2, 0)
        } else {
            (
                Ok(
                    leaf_node(
                        NodeType::Ident,
                        Span { note: Token::Ident, from: 0, to: 0 },
                    ),
                ),
                p2,
            )
        };
        let has_close = p3 < n && toks[p3].note == Token::Bracket(Opening::Close, Bracket::Bracket);
        let p4 = if has_close {
            p3 + 1
        } else {
            p3
        };
        let mut from_node: Option<Node> = None;
        let mut to_node: Option<Node> = None;
        let mut inner: Vec<Error> = Vec::new();
        let ghost frv = out_view(fr);
        let ghost trv = out_view(tr);
        match fr {
            Ok(nd) => {
                if has_from {
                    from_node = Some(nd);
                }
            },
            Err(mut es) => {
                let ghost es0 = errors_view(es@);
                inner.append(&mut es);
                proof {
                    assert(errors_view(inner@) =~= es0);
                }
            },
        }
        let ghost inner1 = errors_view(inner@);
        match tr {
            Ok(nd) => {
                if has_to {
                    to_node = Some(nd);
                }
            },
            Err(mut es) => {
                let ghost es0 = errors_view(es@);
                inner.append(&mut es);
                proof {
                    assert(errors_view(inner@) =~= inner1 + es0);
                }
            },
        }
        let ghost inner2 = errors_view(inner@);
        if !has_close {
            let anchor2 = if p3 < n {
                toks[p3].from
            } else {
                src.len()
            };
            let e = Span {
                note: ErrorType::NoExpectation(kinds_close_bracket()),
                from: anchor2,
                to: anchor2,
            };
            let ghost evv = crate::error::error_view(e);
            inner.push(e);
            proof {
                assert(errors_view(inner@) =~= inner2 + seq![evv]);
            }
        }
        if inner.len() > 0 {
            match left {
                Ok(_) => (Err(inner), p4),
                Err(mut es) => {
                    let ghost es0 = errors_view(es@);
                    let ghost in0 = errors_view(inner@);
                    es.append(&mut inner);
                    proof {
                        assert(errors_view(es@) =~= es0 + in0);
                    }
                    (Err(es), p4)
                },
            }
        } else {
            let close_to = toks[p3].to;
            match slice_kind_at(has_from, op_tok, has_to, optional) {
                None => {
                    let e = Span {
                        note: ErrorType::NonIndexNorSlice,
                        from: anchor,
                        to: close_to,
                    };
                    let ghost evv = crate::error::error_view(e);
                    match left {
                        Ok(_) => {
                            let mut es: Vec<Error> = Vec::new();
                            es.push(e);
                            proof {
                                assert(errors_view(es@) =~= seq![evv]);
                            }
                            (Err(es), p4)
                        },
                        Err(mut es) => {
                            let ghost es0 = errors_view(es@);
                            es.push(e);
                            proof {
                                assert(errors_view(es@) =~= es0 + seq![evv]);
                            }
                            (Err(es), p4)
                        },
                    }
                },
                Some(kind) => {
                    match left {
                        Ok(l) => {
                            let from = l.from;
                            let ghost lnv = node_view(l);
                            let mut ch: Vec<Node> = Vec::new();
                            ch.push(l);
                            proof {
                                crate::node::lemma_nodes_view(ch@);
                                assert(nodes_view(ch@) =~= seq![lnv]);
                            }
                            match from_node {
                                Some(f) => {
                                    let ghost c0 = ch@;
                                    let ghost fv = node_view(f);
                                    ch.push(f);
                                    proof {
                                        crate::node::lemma_nodes_view(c0);
                                        crate::node::lemma_nodes_view(ch@);
                                        assert(nodes_view(ch@) =~= nodes_view(c0).push(fv));
                                    }
                                },
                                None => {},
                            }
                            match to_node {
                                Some(tn) => {
                                    let ghost c0 = ch@;
                                    let ghost tv = node_view(tn);
                                    ch.push(tn);
                                    proof {
                                        crate::node::lemma_nodes_view(c0);
                                        crate::node::lemma_nodes_view(ch@);
                                        assert(nodes_view(ch@) =~= nodes_view(c0).push(tv));
                                    }
                                },
                                None => {},
                            }
                            proof {
                                let fb: Seq<NodeV> = if has_from && frv is Ok {
                                    seq![frv->Ok_0]
                                } else {
                                    Seq::empty()
                                };
                                let tb: Seq<NodeV> = if has_to && trv is Ok {
                                    seq![trv->Ok_0]
                                } else {
                                    Seq::empty()
                                };
                                assert(nodes_view(ch@) =~= seq![lnv] + (fb + tb));
                            }
                            (Ok(Node { node: kind, from, to: close_to, children: ch }), p4)
                        },
                        Err(es) => (Err(es), p4),
                    }
                },
            }
        }
    }
}

} // verus!
