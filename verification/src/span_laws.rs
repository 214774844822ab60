//! The span guarantee of the parser: every node of a successful parse —
//! the root and every child, recursively — carries a well-formed byte
//! range of the source buffer, lying between the first token the parse
//! consumed and the last.

use vstd::prelude::*;

use crate::error::ErrorTypeV;
use crate::node::lemma_nodes_spans_wf;
use crate::node::node_spans_wf;
use crate::node::NodeV;
use crate::node_type::NodeType;
use crate::node_type::Unary;
use crate::parser::bounded;
use crate::parser::leafv;
use crate::parser::spec_double_ref;
use crate::parser::spec_expr_operator;
use crate::parser::spec_group;
use crate::parser::spec_index_or_slice;
use crate::parser::spec_infix;
use crate::parser::spec_infix_bp;
use crate::parser::spec_infix_loop;
use crate::parser::spec_level_bp;
use crate::parser::spec_parse_expr;
use crate::parser::spec_partial_parse;
use crate::parser::spec_prefix;
use crate::parser::spec_property;
use crate::parser::spec_question;
use crate::parser::spec_range_op;
use crate::parser::spec_unary;
use crate::parser::spec_assign;
use crate::scanner::lemma_significant_ordered;
use crate::scanner::lemma_significant_wf;
use crate::scanner::lemma_spec_tokens_ordered;
use crate::scanner::lemma_spec_tokens_wf;
use crate::scanner::significant_tokens;
use crate::scanner::spec_tokens;
use crate::scanner::tokens_ordered;
use crate::scanner::tokens_wf;
use crate::span::Span;
use crate::token::Bracket;
use crate::token::Keyword;
use crate::token::Opening;
use crate::token::Operator;
use crate::token::Token;

verus! {

/// What holds of a successful parse that started at `pos`: it consumed at
/// least one token, every span in the tree is a well-formed range of the
/// buffer, and the root's span lies between the first consumed token's
/// start and the last consumed token's end.
pub open spec fn ok_span_bounds(
    pr: (Result<NodeV, Seq<Span<ErrorTypeV>>>, int),
    src: Seq<u8>,
    toks: Seq<Span<Token>>,
    pos: int,
) -> bool {
    pr.0 matches Ok(n) ==> {
        &&& pos < pr.1 <= toks.len()
        &&& node_spans_wf(n, src.len() as int)
        &&& toks[pos].from <= n.from
        &&& n.to <= toks[pr.1 - 1].to
    }
}

/// The same, for a step that already holds a left operand which began at
/// token `lo` and ended by the end of token `pos - 1`.
pub open spec fn ok_span_bounds_from(
    pr: (Result<NodeV, Seq<Span<ErrorTypeV>>>, int),
    src: Seq<u8>,
    toks: Seq<Span<Token>>,
    lo: int,
) -> bool {
    pr.0 matches Ok(n) ==> {
        &&& lo < pr.1 <= toks.len()
        &&& node_spans_wf(n, src.len() as int)
        &&& toks[lo].from <= n.from
        &&& n.to <= toks[pr.1 - 1].to
    }
}

/// What is assumed of a left operand handed to the infix fold at `pos`: it
/// began at token `lo` and ended by the end of token `pos - 1`.
pub open spec fn left_span_ok(
    left: Result<NodeV, Seq<Span<ErrorTypeV>>>,
    src: Seq<u8>,
    toks: Seq<Span<Token>>,
    lo: int,
    pos: int,
) -> bool {
    left matches Ok(l) ==> {
        &&& node_spans_wf(l, src.len() as int)
        &&& toks[lo].from <= l.from
        &&& l.to <= toks[pos - 1].to
    }
}

/// Spans of a successful `spec_partial_parse` are well formed and bounded
/// by the consumed tokens.
pub proof fn lemma_span_partial(src: Seq<u8>, toks: Seq<Span<Token>>, pos: int, min: int)
    requires
        tokens_wf(toks, src.len() as int),
        tokens_ordered(toks),
        0 <= pos <= toks.len(),
    ensures
        ok_span_bounds(spec_partial_parse(src, toks, pos, min), src, toks, pos),
    decreases toks.len() - pos, 0int,
{
    if pos < toks.len() {
        let t = toks[pos];
        lemma_span_prefix(src, toks, pos + 1, t);
        crate::parser::lemma_prefix_bounds(src, toks, pos + 1, t);
        let pr = spec_prefix(src, toks, pos + 1, t);
        let p1 = bounded(pr.1, pos + 1, toks.len() as int);
        lemma_span_loop(src, toks, pos, p1, min, pr.0);
    }
}

/// Spans of a successful `spec_parse_expr` are well formed and bounded.
pub proof fn lemma_span_parse_expr(src: Seq<u8>, toks: Seq<Span<Token>>, pos: int, min: int)
    requires
        tokens_wf(toks, src.len() as int),
        tokens_ordered(toks),
        0 <= pos <= toks.len(),
    ensures
        ok_span_bounds(spec_parse_expr(src, toks, pos, min), src, toks, pos),
    decreases toks.len() - pos, 1int,
{
    lemma_span_partial(src, toks, pos, min);
}

/// The infix fold keeps spans well formed and bounded.
pub proof fn lemma_span_loop(
    src: Seq<u8>,
    toks: Seq<Span<Token>>,
    lo: int,
    pos: int,
    min: int,
    left: Result<NodeV, Seq<Span<ErrorTypeV>>>,
)
    requires
        tokens_wf(toks, src.len() as int),
        tokens_ordered(toks),
        0 <= lo < pos <= toks.len(),
        left_span_ok(left, src, toks, lo, pos),
    ensures
        ok_span_bounds_from(spec_infix_loop(src, toks, pos, min, left), src, toks, lo),
    decreases toks.len() - pos, 4int,
{
    if pos < toks.len() {
        let t = toks[pos];
        match spec_infix_bp(t.note) {
            None => {},
            Some(bp) => {
                if bp >= min {
                    lemma_span_infix(src, toks, lo, pos + 1, t, left, bp);
                    crate::parser::lemma_infix_bounds(src, toks, pos + 1, t, left, bp);
                    let ir = spec_infix(src, toks, pos + 1, t, left, bp);
                    let p2 = bounded(ir.1, pos + 1, toks.len() as int);
                    assert(left_span_ok(ir.0, src, toks, lo, p2));
                    lemma_span_loop(src, toks, lo, p2, min, ir.0);
                }
            },
        }
    }
}

/// Spans of a successful prefix form are well formed and bounded: the node
/// starts no earlier than the consumed token.
pub proof fn lemma_span_prefix(src: Seq<u8>, toks: Seq<Span<Token>>, pos: int, t: Span<Token>)
    requires
        tokens_wf(toks, src.len() as int),
        tokens_ordered(toks),
        1 <= pos <= toks.len(),
        t == toks[pos - 1],
    ensures
        ({
            let pr = spec_prefix(src, toks, pos, t);
            pr.0 matches Ok(n) ==> {
                &&& pos <= pr.1 <= toks.len()
                &&& node_spans_wf(n, src.len() as int)
                &&& t.from <= n.from
                &&& n.to <= toks[pr.1 - 1].to
            }
        }),
    decreases toks.len() - pos, 3int,
{
    match t.note {
        Token::Keyword(Keyword::Clone) => lemma_span_unary(src, toks, pos, t, Unary::Clone),
        Token::Operator(Operator::Plus) => lemma_span_unary(src, toks, pos, t, Unary::Plus),
        Token::Operator(Operator::Minus) => lemma_span_unary(src, toks, pos, t, Unary::Minus),
        Token::Operator(Operator::Bang) => lemma_span_unary(src, toks, pos, t, Unary::Not),
        Token::Operator(Operator::Amp) => lemma_span_unary(src, toks, pos, t, Unary::Ref),
        Token::Operator(Operator::DoubleAmp) => lemma_span_double_ref(src, toks, pos, t),
        Token::Bracket(Opening::Open, Bracket::Paren) => lemma_span_group(src, toks, pos, t),
        _ => {
            let pr = spec_prefix(src, toks, pos, t);
            if pr.0 is Ok {
                let n = pr.0->Ok_0;
                lemma_nodes_spans_wf(n.children, src.len() as int);
            }
        },
    }
}

/// Spans of a successful unary wrapper are well formed and bounded.
pub proof fn lemma_span_unary(
    src: Seq<u8>,
    toks: Seq<Span<Token>>,
    pos: int,
    t: Span<Token>,
    u: Unary,
)
    requires
        tokens_wf(toks, src.len() as int),
        tokens_ordered(toks),
        1 <= pos <= toks.len(),
        t == toks[pos - 1],
    ensures
        ({
            let pr = spec_unary(src, toks, pos, t, u);
            pr.0 matches Ok(n) ==> {
                &&& pos <= pr.1 <= toks.len()
                &&& node_spans_wf(n, src.len() as int)
                &&& t.from <= n.from
                &&& n.to <= toks[pr.1 - 1].to
            }
        }),
    decreases toks.len() - pos, 2int,
{
    lemma_span_parse_expr(src, toks, pos, 90);
    let pr = spec_parse_expr(src, toks, pos, 90);
    match pr.0 {
        Ok(m) => {
            let n = spec_unary(src, toks, pos, t, u).0->Ok_0;
            lemma_nodes_spans_wf(n.children, src.len() as int);
            assert(n.children[0] == m);
            assert(t.from < t.to <= toks[pos].from);
        },
        Err(e) => {},
    }
}

/// Spans of a successful doubled-ref form are well formed and bounded:
/// each of the two nested nodes spans one byte of the token.
pub proof fn lemma_span_double_ref(src: Seq<u8>, toks: Seq<Span<Token>>, pos: int, t: Span<Token>)
    requires
        tokens_wf(toks, src.len() as int),
        tokens_ordered(toks),
        1 <= pos <= toks.len(),
        t == toks[pos - 1],
    ensures
        ({
            let pr = spec_double_ref(src, toks, pos, t);
            pr.0 matches Ok(n) ==> {
                &&& pos <= pr.1 <= toks.len()
                &&& node_spans_wf(n, src.len() as int)
                &&& t.from <= n.from
                &&& n.to <= toks[pr.1 - 1].to
            }
        }),
    decreases toks.len() - pos, 2int,
{
    lemma_span_parse_expr(src, toks, pos, 90);
    let pr = spec_parse_expr(src, toks, pos, 90);
    match pr.0 {
        Ok(m) => {
            let outer = spec_double_ref(src, toks, pos, t).0->Ok_0;
            let inner = outer.children[0];
            lemma_nodes_spans_wf(outer.children, src.len() as int);
            lemma_nodes_spans_wf(inner.children, src.len() as int);
            assert(inner.children[0] == m);
            assert(t.from < t.to <= toks[pos].from);
            assert(toks[pos - 1].to <= toks[pr.1 - 1].to) by {
                lemma_to_monotone(src, toks, pos - 1, pr.1 - 1);
            }
        },
        Err(e) => {},
    }
}

/// Spans of a successful group are well formed and bounded: the group is
/// transparent, so the inner node's span stands.
pub proof fn lemma_span_group(src: Seq<u8>, toks: Seq<Span<Token>>, pos: int, t: Span<Token>)
    requires
        tokens_wf(toks, src.len() as int),
        tokens_ordered(toks),
        1 <= pos <= toks.len(),
        t == toks[pos - 1],
    ensures
        ({
            let pr = spec_group(src, toks, pos, t);
            pr.0 matches Ok(n) ==> {
                &&& pos <= pr.1 <= toks.len()
                &&& node_spans_wf(n, src.len() as int)
                &&& t.from <= n.from
                &&& n.to <= toks[pr.1 - 1].to
            }
        }),
    decreases toks.len() - pos, 2int,
{
    lemma_span_parse_expr(src, toks, pos, 0);
    let pr = spec_parse_expr(src, toks, pos, 0);
    let p1 = pr.1;
    if 0 <= p1 < toks.len() && toks[p1].note == Token::Bracket(Opening::Close, Bracket::Paren) {
        match pr.0 {
            Ok(m) => {
                assert(t.from < t.to <= toks[pos].from);
                assert(toks[p1 - 1].to <= toks[p1].to) by {
                    lemma_to_monotone(src, toks, p1 - 1, p1);
                }
            },
            Err(e) => {},
        }
    }
}

/// Spans of a successful infix parselet are well formed and bounded.
pub proof fn lemma_span_infix(
    src: Seq<u8>,
    toks: Seq<Span<Token>>,
    lo: int,
    pos: int,
    t: Span<Token>,
    left: Result<NodeV, Seq<Span<ErrorTypeV>>>,
    bp: int,
)
    requires
        tokens_wf(toks, src.len() as int),
        tokens_ordered(toks),
        1 <= pos <= toks.len(),
        0 <= lo < pos,
        t == toks[pos - 1],
        left matches Ok(l) ==> {
            &&& node_spans_wf(l, src.len() as int)
            &&& toks[lo].from <= l.from
            &&& l.to <= t.from
        },
    ensures
        ok_span_bounds_from(spec_infix(src, toks, pos, t, left, bp), src, toks, lo),
    decreases toks.len() - pos, 3int,
{
    match t.note {
        Token::Operator(Operator::Dot) => {
            lemma_span_property(src, toks, lo, pos, t, left, NodeType::Property);
        },
        Token::Operator(Operator::LeftArrow) => {
            lemma_span_assign(src, toks, lo, pos, t, left);
        },
        Token::Operator(Operator::Question) => {
            lemma_span_question(src, toks, lo, pos, t, left);
        },
        Token::Bracket(Opening::Open, Bracket::Bracket) => {
            lemma_span_index(src, toks, lo, pos, t, t.from, left, false);
        },
        Token::Operator(op) => {
            lemma_span_expr_operator(src, toks, lo, pos, t, left, op, bp);
        },
        _ => {},
    }
}

/// Ends of tokens never move backward along the stream.
pub proof fn lemma_to_monotone(src: Seq<u8>, toks: Seq<Span<Token>>, j: int, k: int)
    requires
        tokens_wf(toks, src.len() as int),
        tokens_ordered(toks),
        0 <= j <= k < toks.len(),
    ensures
        toks[j].to <= toks[k].to,
{
    if j < k {
        assert(toks[j].to <= toks[k].from);
    }
}

/// Spans of a successful binary operator node are well formed and bounded.
pub proof fn lemma_span_expr_operator(
    src: Seq<u8>,
    toks: Seq<Span<Token>>,
    lo: int,
    pos: int,
    t: Span<Token>,
    left: Result<NodeV, Seq<Span<ErrorTypeV>>>,
    op: Operator,
    bp: int,
)
    requires
        tokens_wf(toks, src.len() as int),
        tokens_ordered(toks),
        1 <= pos <= toks.len(),
        0 <= lo < pos,
        t == toks[pos - 1],
        left matches Ok(l) ==> {
            &&& node_spans_wf(l, src.len() as int)
            &&& toks[lo].from <= l.from
            &&& l.to <= t.from
        },
    ensures
        ok_span_bounds_from(
            spec_expr_operator(src, toks, pos, left, crate::parser::binary_of(op), bp),
            src,
            toks,
            lo,
        ),
    decreases toks.len() - pos, 2int,
{
    lemma_span_partial(src, toks, pos, bp + 1);
    let pr = spec_partial_parse(src, toks, pos, bp + 1);
    match (left, pr.0) {
        (Ok(l), Ok(rn)) => {
            let n = spec_expr_operator(
                src,
                toks,
                pos,
                left,
                crate::parser::binary_of(op),
                bp,
            ).0->Ok_0;
            lemma_nodes_spans_wf(n.children, src.len() as int);
            assert(n.children[0] == l && n.children[1] == rn);
            assert(t.from <= t.to <= toks[pos].from);
        },
        _ => {},
    }
}

/// Spans of a successful assignment node are well formed and bounded.
pub proof fn lemma_span_assign(
    src: Seq<u8>,
    toks: Seq<Span<Token>>,
    lo: int,
    pos: int,
    t: Span<Token>,
    left: Result<NodeV, Seq<Span<ErrorTypeV>>>,
)
    requires
        tokens_wf(toks, src.len() as int),
        tokens_ordered(toks),
        1 <= pos <= toks.len(),
        0 <= lo < pos,
        t == toks[pos - 1],
        left matches Ok(l) ==> {
            &&& node_spans_wf(l, src.len() as int)
            &&& toks[lo].from <= l.from
            &&& l.to <= t.from
        },
    ensures
        ok_span_bounds_from(spec_assign(src, toks, pos, left), src, toks, lo),
    decreases toks.len() - pos, 2int,
{
    lemma_span_partial(src, toks, pos, 19);
    let pr = spec_partial_parse(src, toks, pos, 19);
    match (left, pr.0) {
        (Ok(l), Ok(rn)) => {
            if l.node.spec_place() {
                let n = spec_assign(src, toks, pos, left).0->Ok_0;
                lemma_nodes_spans_wf(n.children, src.len() as int);
                assert(n.children[0] == l && n.children[1] == rn);
                assert(t.from <= t.to <= toks[pos].from);
            }
        },
        _ => {},
    }
}

/// Spans of a successful property access are well formed and bounded.
pub proof fn lemma_span_property(
    src: Seq<u8>,
    toks: Seq<Span<Token>>,
    lo: int,
    pos: int,
    t: Span<Token>,
    left: Result<NodeV, Seq<Span<ErrorTypeV>>>,
    kind: NodeType,
)
    requires
        tokens_wf(toks, src.len() as int),
        tokens_ordered(toks),
        1 <= pos <= toks.len(),
        0 <= lo < pos,
        t == toks[pos - 1],
        left matches Ok(l) ==> {
            &&& node_spans_wf(l, src.len() as int)
            &&& toks[lo].from <= l.from
            &&& l.to <= t.from
        },
    ensures
        ok_span_bounds_from(spec_property(toks, pos, t, left, kind), src, toks, lo),
    decreases toks.len() - pos, 2int,
{
    if 0 <= pos < toks.len() && toks[pos].note == Token::Ident {
        match left {
            Ok(l) => {
                let n = spec_property(toks, pos, t, left, kind).0->Ok_0;
                lemma_nodes_spans_wf(n.children, src.len() as int);
                assert(n.children[0] == l);
                assert(t.from <= t.to <= toks[pos].from <= toks[pos].to);
            },
            Err(e) => {},
        }
    }
}

/// Spans of a successful optional chain are well formed and bounded.
pub proof fn lemma_span_question(
    src: Seq<u8>,
    toks: Seq<Span<Token>>,
    lo: int,
    pos: int,
    t: Span<Token>,
    left: Result<NodeV, Seq<Span<ErrorTypeV>>>,
)
    requires
        tokens_wf(toks, src.len() as int),
        tokens_ordered(toks),
        1 <= pos <= toks.len(),
        0 <= lo < pos,
        t == toks[pos - 1],
        left matches Ok(l) ==> {
            &&& node_spans_wf(l, src.len() as int)
            &&& toks[lo].from <= l.from
            &&& l.to <= t.from
        },
    ensures
        ok_span_bounds_from(spec_question(src, toks, pos, t, left), src, toks, lo),
    decreases toks.len() - pos, 2int,
{
    if 0 <= pos < toks.len() && toks[pos].note == Token::Operator(Operator::Dot) {
        assert(t.from <= t.to <= toks[pos].from);
        lemma_span_property(src, toks, lo, pos + 1, toks[pos], left, NodeType::OptionalProperty);
    } else if 0 <= pos < toks.len() && toks[pos].note == Token::Bracket(
        Opening::Open,
        Bracket::Bracket,
    ) {
        assert(t.from <= t.to <= toks[pos].from);
        lemma_span_index(src, toks, lo, pos + 1, toks[pos], t.from, left, true);
    }
}

/// Spans of a successful index or slice node are well formed and bounded.
pub proof fn lemma_span_index(
    src: Seq<u8>,
    toks: Seq<Span<Token>>,
    lo: int,
    pos: int,
    t: Span<Token>,
    anchor: usize,
    left: Result<NodeV, Seq<Span<ErrorTypeV>>>,
    optional: bool,
)
    requires
        tokens_wf(toks, src.len() as int),
        tokens_ordered(toks),
        1 <= pos <= toks.len(),
        0 <= lo < pos,
        t == toks[pos - 1],
        left matches Ok(l) ==> {
            &&& node_spans_wf(l, src.len() as int)
            &&& toks[lo].from <= l.from
            &&& l.to <= t.from
        },
    ensures
        ({
            let pr = spec_index_or_slice(src, toks, pos, anchor, left, optional);
            pr.0 matches Ok(n) ==> {
                &&& lo < pr.1 <= toks.len()
                &&& node_spans_wf(n, src.len() as int)
                &&& toks[lo].from <= n.from
                &&& n.to <= toks[pr.1 - 1].to
            }
        }),
    decreases toks.len() - pos, 2int,
{
    let close = Token::Bracket(Opening::Close, Bracket::Bracket);
    let end = src.len() as int;
    if 0 <= pos < toks.len() && toks[pos].note != close {
        let has_from = !spec_range_op(toks[pos].note);
        if has_from {
            lemma_span_parse_expr(src, toks, pos, 0);
            crate::parser::lemma_parse_expr_bounds(src, toks, pos, 0);
        }
        let fr = if has_from {
            spec_parse_expr(src, toks, pos, 0)
        } else {
            (Ok(leafv(NodeType::Ident, toks[pos])), pos)
        };
        let p1 = bounded(fr.1, pos, toks.len() as int);
        let has_op = 0 <= p1 < toks.len() && spec_range_op(toks[p1].note);
        let p2 = if has_op {
            p1 + 1
        } else {
            p1
        };
        let has_to = has_op && 0 <= p2 < toks.len() && toks[p2].note != close;
        if has_to {
            lemma_span_parse_expr(src, toks, p2, 0);
            crate::parser::lemma_parse_expr_bounds(src, toks, p2, 0);
        }
        let tr = if has_to {
            spec_parse_expr(src, toks, p2, 0)
        } else {
            (Ok(leafv(NodeType::Ident, crate::parser::absent_bound())), p2)
        };
        let p3 = bounded(tr.1, p2, toks.len() as int);
        let has_close = 0 <= p3 < toks.len() && toks[p3].note == close;
        let pr = spec_index_or_slice(src, toks, pos, anchor, left, optional);
        if pr.0 is Ok && has_close {
            match left {
                Ok(l) => {
                    let n = pr.0->Ok_0;
                    lemma_nodes_spans_wf(n.children, end);
                    assert(n.children[0] == l);
                    assert(t.from <= t.to <= toks[pos].from);
                    assert(toks[pos - 1].to <= toks[p3].to) by {
                        lemma_to_monotone(src, toks, pos - 1, p3);
                    }
                    if has_from && fr.0 is Ok && has_to && tr.0 is Ok {
                        assert(n.children =~= seq![l, fr.0->Ok_0, tr.0->Ok_0]);
                    } else if has_from && fr.0 is Ok {
                        assert(n.children =~= seq![l, fr.0->Ok_0]);
                    } else if has_to && tr.0 is Ok {
                        assert(n.children =~= seq![l, tr.0->Ok_0]);
                    } else {
                        assert(n.children =~= seq![l]);
                    }
                    assert(toks[pos].from <= toks[pos].to <= toks[p3].to) by {
                        lemma_to_monotone(src, toks, pos, p3);
                    }
                },
                Err(e) => {},
            }
        }
    }
}

/// The span guarantee at the library's door: every node of a successful
/// parse of `src` at any precedence level — the root and every child,
/// recursively — spans a well-formed byte range of the buffer.
pub proof fn lemma_expr_spans_wf(src: Seq<u8>, level: int)
    requires
        src.len() <= usize::MAX,
    ensures
        ({
            let toks = significant_tokens(spec_tokens(src));
            spec_parse_expr(src, toks, 0, spec_level_bp(level)).0 matches Ok(n) ==> node_spans_wf(
                n,
                src.len() as int,
            )
        }),
{
    let all = spec_tokens(src);
    let toks = significant_tokens(all);
    lemma_spec_tokens_wf(src, 0);
    lemma_spec_tokens_ordered(src, 0);
    lemma_significant_wf(all, src.len() as int);
    lemma_significant_ordered(all, src.len() as int);
    lemma_span_parse_expr(src, toks, 0, spec_level_bp(level));
}

} // verus!
