use exprfront::error::ErrorType;
use exprfront::node::Node;
use exprfront::node_type::Binary;
use exprfront::node_type::NodeType;
use exprfront::node_type::RangeType;
use exprfront::node_type::Unary;
use exprfront::parser::expr;
use exprfront::span::Span;
use exprfront::token::Bracket;
use exprfront::token::Opening;
use exprfront::token::TokenKind;

fn var(from: usize, to: usize) -> Node {
    Node { node: NodeType::Ident, from, to, children: vec![] }
}

fn node(kind: NodeType, from: usize, to: usize, children: Vec<Node>) -> Node {
    Node { node: kind, from, to, children }
}

#[test]
fn group() {
    let src = "(foo)";
    let (r, rest) = expr(src, 0);
    assert_eq!(r, Ok(var(1, 4)));
    assert_eq!(&src[rest..], "");
}

#[test]
fn precedence() {
    let src = "foo + bar * baz";
    let expected = node(
        NodeType::Binary(Binary::Add),
        0,
        15,
        vec![
            var(0, 3),
            node(
                NodeType::Binary(Binary::Multiply),
                6,
                15,
                vec![var(6, 9), var(12, 15)],
            ),
        ],
    );
    let (r, rest) = expr(src, 0);
    assert_eq!(r, Ok(expected));
    assert_eq!(&src[rest..], "");

    let src = "foo * bar + baz";
    let expected = node(
        NodeType::Binary(Binary::Add),
        0,
        15,
        vec![
            node(
                NodeType::Binary(Binary::Multiply),
                0,
                9,
                vec![var(0, 3), var(6, 9)],
            ),
            var(12, 15),
        ],
    );
    let (r, rest) = expr(src, 0);
    assert_eq!(r, Ok(expected));
    assert_eq!(&src[rest..], "");
}

#[test]
fn right_associative() {
    let src = "foo <- bar <- baz";
    let expected = node(
        NodeType::Assign,
        0,
        17,
        vec![
            var(0, 3),
            node(NodeType::Assign, 7, 17, vec![var(7, 10), var(14, 17)]),
        ],
    );
    let (r, rest) = expr(src, 0);
    assert_eq!(r, Ok(expected));
    assert_eq!(&src[rest..], "");
}

#[test]
fn ignore_higher_precedence() {
    let src = "foo + bar";
    let (r, rest) = expr(src, 6);
    assert_eq!(r, Ok(var(0, 3)));
    assert_eq!(&src[rest..], "+ bar");
}

#[test]
fn ignore_range() {
    let src = "foo..";
    let (r, rest) = expr(src, 0);
    assert_eq!(r, Ok(var(0, 3)));
    assert_eq!(&src[rest..], "..");
}

#[test]
fn assignment_kept_out_below_level_one() {
    let src = "a <- b";
    let (r, rest) = expr(src, 1);
    assert_eq!(r, Ok(var(0, 1)));
    assert_eq!(&src[rest..], "<- b");
}

#[test]
fn non_place_assignment() {
    let src = "null <- foo";
    let (r, _) = expr(src, 0);
    assert_eq!(r, Err(vec![Span::new(ErrorType::NonPlace, 0, 4)]));
}

#[test]
fn two_independent_faults_in_order() {
    let src = "null <- )";
    let (r, _) = expr(src, 0);
    let errors = r.unwrap_err();
    assert!(errors.len() >= 2);
    assert_eq!(errors[0], Span::new(ErrorType::NonPlace, 0, 4));
    assert_eq!(
        errors[1],
        Span::new(
            ErrorType::NoExpectation(vec![
                TokenKind::Ident,
                TokenKind::Num,
                TokenKind::Str,
                TokenKind::Char,
                TokenKind::Bracket(Opening::Open, Bracket::Paren),
            ]),
            8,
            9
        )
    );
}

#[test]
fn keyword_literals() {
    let (r, _) = expr("true", 0);
    assert_eq!(r, Ok(node(NodeType::True, 0, 4, vec![])));
    let (r, _) = expr("false", 0);
    assert_eq!(r, Ok(node(NodeType::False, 0, 5, vec![])));
    let (r, _) = expr("null", 0);
    assert_eq!(r, Ok(node(NodeType::Null, 0, 4, vec![])));
}

#[test]
fn unary_wrappers() {
    let (r, _) = expr("-foo", 0);
    assert_eq!(
        r,
        Ok(node(
            NodeType::Unary(Unary::Minus),
            0,
            4,
            vec![var(1, 4)]
        ))
    );
    let (r, _) = expr("!foo", 0);
    assert_eq!(r, Ok(node(NodeType::Unary(Unary::Not), 0, 4, vec![var(1, 4)])));
}

#[test]
fn clone_binds_tighter_than_binary() {
    let src = "clone foo + bar";
    let expected = node(
        NodeType::Binary(Binary::Add),
        0,
        15,
        vec![
            node(NodeType::Unary(Unary::Clone), 0, 9, vec![var(6, 9)]),
            var(12, 15),
        ],
    );
    let (r, _) = expr(src, 0);
    assert_eq!(r, Ok(expected));
}

#[test]
fn double_ref_splits_into_two_nodes() {
    let src = "&&foo";
    let expected = node(
        NodeType::Unary(Unary::Ref),
        0,
        1,
        vec![node(NodeType::Unary(Unary::Ref), 1, 2, vec![var(2, 5)])],
    );
    let (r, _) = expr(src, 0);
    assert_eq!(r, Ok(expected));
}

#[test]
fn property_access() {
    let (r, _) = expr("foo.bar", 0);
    assert_eq!(r, Ok(node(NodeType::Property, 0, 7, vec![var(0, 3)])));
}

#[test]
fn optional_property_access() {
    let (r, _) = expr("foo?.bar", 0);
    assert_eq!(
        r,
        Ok(node(NodeType::OptionalProperty, 0, 8, vec![var(0, 3)]))
    );
}

#[test]
fn property_needs_identifier() {
    let (r, _) = expr("foo.", 0);
    assert_eq!(
        r,
        Err(vec![Span::new(
            ErrorType::NoExpectation(vec![TokenKind::Ident]),
            4,
            4
        )])
    );
}

#[test]
fn question_needs_dot_or_bracket() {
    let (r, _) = expr("foo?bar", 0);
    assert_eq!(
        r,
        Err(vec![Span::new(
            ErrorType::NoExpectation(vec![
                TokenKind::Operator(exprfront::token::Operator::Dot),
                TokenKind::Bracket(Opening::Open, Bracket::Bracket),
            ]),
            4,
            4
        )])
    );
}

#[test]
fn index_expression() {
    let (r, _) = expr("foo[bar]", 0);
    assert_eq!(
        r,
        Ok(node(NodeType::Index, 0, 8, vec![var(0, 3), var(4, 7)]))
    );
}

#[test]
fn optional_index_expression() {
    let (r, _) = expr("foo?[bar]", 0);
    assert_eq!(
        r,
        Ok(node(NodeType::OptionalIndex, 0, 9, vec![var(0, 3), var(5, 8)]))
    );
}

#[test]
fn slice_shapes() {
    let (r, _) = expr("foo[..]", 0);
    assert_eq!(
        r,
        Ok(node(
            NodeType::Slice(RangeType::Full),
            0,
            7,
            vec![var(0, 3)]
        ))
    );
    let (r, _) = expr("a[b..c]", 0);
    assert_eq!(
        r,
        Ok(node(
            NodeType::Slice(RangeType::InclusiveExclusive),
            0,
            7,
            vec![var(0, 1), var(2, 3), var(5, 6)]
        ))
    );
    let (r, _) = expr("a[b..=c]", 0);
    assert_eq!(
        r,
        Ok(node(
            NodeType::Slice(RangeType::Inclusive),
            0,
            8,
            vec![var(0, 1), var(2, 3), var(6, 7)]
        ))
    );
    let (r, _) = expr("a[b>..]", 0);
    assert_eq!(
        r,
        Ok(node(
            NodeType::Slice(RangeType::FromExclusive),
            0,
            7,
            vec![var(0, 1), var(2, 3)]
        ))
    );
    let (r, _) = expr("a[..=b]", 0);
    assert_eq!(
        r,
        Ok(node(
            NodeType::Slice(RangeType::ToInclusive),
            0,
            7,
            vec![var(0, 1), var(5, 6)]
        ))
    );
}

#[test]
fn empty_brackets_are_no_index_nor_slice() {
    let (r, _) = expr("foo[]", 0);
    assert_eq!(r, Err(vec![Span::new(ErrorType::NonIndexNorSlice, 3, 5)]));
}

#[test]
fn bad_range_shape_is_no_index_nor_slice() {
    let (r, _) = expr("foo[..=]", 0);
    assert_eq!(r, Err(vec![Span::new(ErrorType::NonIndexNorSlice, 3, 8)]));
}

#[test]
fn numeric_leaves() {
    let (r, _) = expr("12_3", 0);
    assert_eq!(r, Ok(node(NodeType::UInt, 0, 4, vec![])));
    let (r, _) = expr("1.5", 0);
    assert_eq!(r, Ok(node(NodeType::Float, 0, 3, vec![])));
    let (r, _) = expr("0xFF", 0);
    assert_eq!(r, Ok(node(NodeType::Float, 0, 4, vec![])));
}

#[test]
fn sudden_end_of_input() {
    let (r, _) = expr("", 0);
    assert_eq!(r, Err(vec![Span::new(ErrorType::SuddenEof, 0, 0)]));
    let (r, _) = expr("foo +", 0);
    assert_eq!(r, Err(vec![Span::new(ErrorType::SuddenEof, 5, 5)]));
}

#[test]
fn unknown_token_error() {
    let (r, _) = expr("@", 0);
    assert_eq!(r, Err(vec![Span::new(ErrorType::UnknownToken, 0, 1)]));
}

#[test]
fn unterminated_quote_error() {
    let (r, _) = expr("\"abc", 0);
    assert_eq!(r, Err(vec![Span::new(ErrorType::UnterminatedQuote, 0, 4)]));
}

#[test]
fn missing_close_paren() {
    let (r, _) = expr("(foo", 0);
    assert_eq!(
        r,
        Err(vec![Span::new(
            ErrorType::NoExpectation(vec![TokenKind::Bracket(
                Opening::Close,
                Bracket::Paren
            )]),
            4,
            4
        )])
    );
}

#[test]
fn comparisons_and_logic() {
    let src = "a < b && c";
    let expected = node(
        NodeType::Binary(Binary::LazyAnd),
        0,
        10,
        vec![
            node(
                NodeType::Binary(Binary::Less),
                0,
                5,
                vec![var(0, 1), var(4, 5)],
            ),
            var(9, 10),
        ],
    );
    let (r, _) = expr(src, 0);
    assert_eq!(r, Ok(expected));
}
