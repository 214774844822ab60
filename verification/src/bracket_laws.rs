//! Laws of the bracket-validating scan and of the lexed forest.
//!
//! `balanced` captures a stream the scan accepts outright. Three laws say
//! how the scan fails: one opening bracket too many yields exactly its
//! `Unmatched` fault; a close bracket that does not pair with the innermost
//! open bracket yields exactly one `Mismatch` naming both sides, with
//! nothing scanned past it; and the brackets still open outside the fault
//! each drain into an `Unmatched` all the same, most recent first. The last
//! law says the forest is never ambiguous: flattening is injective on
//! plain-leaved forests, so the stream `Tree::lex` succeeds on determines
//! its forest completely.

use vstd::prelude::*;

use crate::span::Span;
use crate::token::Bracket;
use crate::token::Opening;
use crate::token::Token;
use crate::tree_lexer::bracket_span;
use crate::tree_lexer::drain;
use crate::tree_lexer::flatten_forest;
use crate::tree_lexer::flatten_tree;
use crate::tree_lexer::forest_leaves_plain;
use crate::tree_lexer::lex_errors;
use crate::tree_lexer::tree_leaves_plain;
use crate::tree_lexer::TreeV;
use crate::tree_lexer::scan_toks;
use crate::tree_lexer::BracketError;
use crate::tree_lexer::Scan;
use crate::tree_lexer::TreeError;

verus! {

/// A stream the scan accepts: no fault, and no bracket left open.
pub open spec fn balanced(toks: Seq<Span<Token>>) -> bool {
    scan_toks(toks, 0, Seq::empty()) == (Scan {
        errs: Seq::<TreeError>::empty(),
        stack: Some(Seq::<Span<Bracket>>::empty()),
    })
}

/// A faultless scan never looks below the stack it started with: brackets
/// pushed under it ride along untouched.
pub proof fn lemma_scan_stack_extend(
    toks: Seq<Span<Token>>,
    i: int,
    stack: Seq<Span<Bracket>>,
    bottom: Seq<Span<Bracket>>,
    top: Seq<Span<Bracket>>,
)
    requires
        scan_toks(toks, i, stack) == (Scan {
            errs: Seq::<TreeError>::empty(),
            stack: Some(top),
        }),
    ensures
        scan_toks(toks, i, bottom + stack) == (Scan {
            errs: Seq::<TreeError>::empty(),
            stack: Some(bottom + top),
        }),
    decreases toks.len() - i,
{
    if i < 0 || i >= toks.len() {
    } else {
        let t = toks[i];
        match t.note {
            Token::Bracket(Opening::Open, b) => {
                assert(bottom + stack.push(bracket_span(t, b)) =~= (bottom + stack).push(
                    bracket_span(t, b),
                ));
                lemma_scan_stack_extend(toks, i + 1, stack.push(bracket_span(t, b)), bottom, top);
            },
            Token::Bracket(Opening::Close, b) => {
                if stack.len() == 0 {
                    assert(scan_toks(toks, i, stack).errs.len() >= 1);
                } else if stack.last().note == b {
                    assert((bottom + stack).last() == stack.last());
                    assert((bottom + stack).drop_last() =~= bottom + stack.drop_last());
                    lemma_scan_stack_extend(toks, i + 1, stack.drop_last(), bottom, top);
                } else {
                    assert(scan_toks(toks, i, stack).errs.len() >= 1);
                }
            },
            Token::Unknown => {
                assert(scan_toks(toks, i, stack).errs.len() >= 1);
            },
            Token::UnterminatedQuote => {
                assert(scan_toks(toks, i, stack).errs.len() >= 1);
            },
            _ => {
                lemma_scan_stack_extend(toks, i + 1, stack, bottom, top);
            },
        }
    }
}

/// Scanning a suffix ignores a prefix pasted before it.
pub proof fn lemma_scan_shift(
    a: Seq<Span<Token>>,
    b: Seq<Span<Token>>,
    j: int,
    stack: Seq<Span<Bracket>>,
)
    requires
        0 <= j,
    ensures
        scan_toks(a + b, a.len() + j, stack) == scan_toks(b, j, stack),
    decreases b.len() - j,
{
    if j >= b.len() {
    } else {
        assert((a + b)[a.len() + j] == b[j]);
        let t = b[j];
        match t.note {
            Token::Bracket(Opening::Open, k) => {
                lemma_scan_shift(a, b, j + 1, stack.push(bracket_span(t, k)));
            },
            Token::Bracket(Opening::Close, k) => {
                if stack.len() > 0 && stack.last().note == k {
                    lemma_scan_shift(a, b, j + 1, stack.drop_last());
                }
            },
            _ => {
                lemma_scan_shift(a, b, j + 1, stack);
            },
        }
    }
}

/// Scanning a pasted stream scans the first part, then — unless a fatal
/// close stopped it there — the second part from the stack the first left.
pub proof fn lemma_scan_concat(
    a: Seq<Span<Token>>,
    b: Seq<Span<Token>>,
    i: int,
    stack: Seq<Span<Bracket>>,
)
    requires
        0 <= i <= a.len(),
    ensures
        ({
            let sa = scan_toks(a, i, stack);
            match sa.stack {
                Some(mid) => scan_toks(a + b, i, stack) == (Scan {
                    errs: sa.errs + scan_toks(b, 0, mid).errs,
                    stack: scan_toks(b, 0, mid).stack,
                }),
                None => scan_toks(a + b, i, stack) == sa,
            }
        }),
    decreases a.len() - i,
{
    if i >= a.len() {
        lemma_scan_shift(a, b, 0, stack);
        assert(scan_toks(a, i, stack).errs + scan_toks(b, 0, stack).errs =~= scan_toks(
            b,
            0,
            stack,
        ).errs);
    } else {
        assert((a + b)[i] == a[i]);
        let t = a[i];
        match t.note {
            Token::Bracket(Opening::Open, k) => {
                lemma_scan_concat(a, b, i + 1, stack.push(bracket_span(t, k)));
            },
            Token::Bracket(Opening::Close, k) => {
                if stack.len() > 0 && stack.last().note == k {
                    lemma_scan_concat(a, b, i + 1, stack.drop_last());
                }
            },
            Token::Unknown => {
                lemma_scan_concat(a, b, i + 1, stack);
                let sa1 = scan_toks(a, i + 1, stack);
                match sa1.stack {
                    Some(mid) => {
                        assert((scan_toks(a, i, stack).errs + scan_toks(b, 0, mid).errs) =~= (seq![
                            scan_toks(a, i, stack).errs[0],
                        ] + (sa1.errs + scan_toks(b, 0, mid).errs)));
                    },
                    None => {},
                }
            },
            Token::UnterminatedQuote => {
                lemma_scan_concat(a, b, i + 1, stack);
                let sa1 = scan_toks(a, i + 1, stack);
                match sa1.stack {
                    Some(mid) => {
                        assert((scan_toks(a, i, stack).errs + scan_toks(b, 0, mid).errs) =~= (seq![
                            scan_toks(a, i, stack).errs[0],
                        ] + (sa1.errs + scan_toks(b, 0, mid).errs)));
                    },
                    None => {},
                }
            },
            _ => {
                lemma_scan_concat(a, b, i + 1, stack);
            },
        }
    }
}

/// Exactly one opening bracket too many — a balanced stream, the open
/// bracket, a balanced rest — yields exactly one fault: `Unmatched`,
/// naming that bracket's span.
pub proof fn lemma_one_unmatched(
    a: Seq<Span<Token>>,
    t: Span<Token>,
    b: Seq<Span<Token>>,
    k: Bracket,
)
    requires
        balanced(a),
        balanced(b),
        t.note == Token::Bracket(Opening::Open, k),
    ensures
        lex_errors(a + seq![t] + b) == seq![
            TreeError::Tree(BracketError::Unmatched(bracket_span(t, k))),
        ],
{
    let mid = seq![t] + b;
    let bs = bracket_span(t, k);
    assert(a + seq![t] + b =~= a + mid);
    lemma_scan_concat(a, mid, 0, Seq::empty());
    // scanning the middle part: the open bracket goes on the stack, then
    // the balanced rest leaves it untouched
    assert(mid[0] == t);
    assert(Seq::<Span<Bracket>>::empty().push(bs) =~= seq![bs]);
    assert(scan_toks(mid, 0, Seq::empty()) == scan_toks(mid, 1, seq![bs]));
    lemma_scan_shift(seq![t], b, 0, seq![bs]);
    assert(seq![t] + b == mid);
    assert(scan_toks(mid, 1, seq![bs]) == scan_toks(b, 0, seq![bs]));
    assert(seq![bs] + Seq::<Span<Bracket>>::empty() =~= seq![bs]);
    lemma_scan_stack_extend(b, 0, Seq::empty(), seq![bs], Seq::empty());
    assert(scan_toks(b, 0, seq![bs]) == (Scan {
        errs: Seq::<TreeError>::empty(),
        stack: Some(seq![bs]),
    }));
    assert(scan_toks(a + mid, 0, Seq::empty()).stack == Some(seq![bs]));
    assert(scan_toks(a + mid, 0, Seq::empty()).errs =~= Seq::<TreeError>::empty());
    assert(seq![bs].len() == 1 && seq![bs].last() == bs);
    assert(seq![bs].drop_last() =~= Seq::<Span<Bracket>>::empty());
    assert(drain(Seq::<Span<Bracket>>::empty()) =~= Seq::<TreeError>::empty());
    assert(drain(seq![bs]) =~= seq![TreeError::Tree(BracketError::Unmatched(bs))]);
    assert(lex_errors(a + mid) =~= seq![TreeError::Tree(BracketError::Unmatched(bs))]);
}

/// A close bracket that does not pair with the innermost open bracket —
/// here: a balanced stream, an open bracket of one shape, a balanced
/// interior, then a close bracket of another shape — yields exactly one
/// fault: `Mismatch`, naming the open and the close. Nothing is reported
/// for whatever follows, and the mismatched bracket was the only one still
/// open, so no `Unmatched` drain follows it here.
pub proof fn lemma_one_mismatch(
    a: Seq<Span<Token>>,
    t_open: Span<Token>,
    b: Seq<Span<Token>>,
    t_close: Span<Token>,
    rest: Seq<Span<Token>>,
    ko: Bracket,
    kc: Bracket,
)
    requires
        balanced(a),
        balanced(b),
        t_open.note == Token::Bracket(Opening::Open, ko),
        t_close.note == Token::Bracket(Opening::Close, kc),
        ko != kc,
    ensures
        lex_errors(a + seq![t_open] + b + seq![t_close] + rest) == seq![
            TreeError::Tree(
                BracketError::Mismatch(bracket_span(t_open, ko), bracket_span(t_close, kc)),
            ),
        ],
{
    let bo = bracket_span(t_open, ko);
    let bc = bracket_span(t_close, kc);
    let tail = seq![t_close] + rest;
    let mid = seq![t_open] + (b + tail);
    assert(a + seq![t_open] + b + seq![t_close] + rest =~= a + mid);
    lemma_scan_concat(a, mid, 0, Seq::empty());
    assert(mid[0] == t_open);
    assert(Seq::<Span<Bracket>>::empty().push(bo) =~= seq![bo]);
    assert(scan_toks(mid, 0, Seq::empty()) == scan_toks(mid, 1, seq![bo]));
    lemma_scan_shift(seq![t_open], b + tail, 0, seq![bo]);
    assert(seq![t_open] + (b + tail) == mid);
    assert(scan_toks(mid, 1, seq![bo]) == scan_toks(b + tail, 0, seq![bo]));
    lemma_scan_concat(b, tail, 0, seq![bo]);
    assert(seq![bo] + Seq::<Span<Bracket>>::empty() =~= seq![bo]);
    lemma_scan_stack_extend(b, 0, Seq::empty(), seq![bo], Seq::empty());
    assert(scan_toks(b, 0, seq![bo]) == (Scan {
        errs: Seq::<TreeError>::empty(),
        stack: Some(seq![bo]),
    }));
    assert(tail[0] == t_close);
    assert(seq![bo].last() == bo);
    assert(scan_toks(tail, 0, seq![bo]) == (Scan {
        errs: seq![TreeError::Tree(BracketError::Mismatch(bo, bc))],
        stack: None::<Seq<Span<Bracket>>>,
    }));
    assert(scan_toks(b + tail, 0, seq![bo]).errs =~= seq![
        TreeError::Tree(BracketError::Mismatch(bo, bc)),
    ]);
    assert(scan_toks(a + mid, 0, Seq::empty()).errs =~= seq![
        TreeError::Tree(BracketError::Mismatch(bo, bc)),
    ]);
    assert(lex_errors(a + mid) =~= seq![TreeError::Tree(BracketError::Mismatch(bo, bc))]);
}


/// When a mismatch strikes with brackets still open outside it, those
/// brackets drain: a balanced stream, an open bracket, a balanced interior,
/// a second open bracket, another balanced interior, then a close bracket
/// pairing with neither — the faults are exactly the `Mismatch` naming the
/// innermost open and the close, then one `Unmatched` for the outer open,
/// and nothing for whatever follows.
pub proof fn lemma_mismatch_drains(
    a: Seq<Span<Token>>,
    t_outer: Span<Token>,
    b: Seq<Span<Token>>,
    t_inner: Span<Token>,
    c: Seq<Span<Token>>,
    t_close: Span<Token>,
    rest: Seq<Span<Token>>,
    ko: Bracket,
    ki: Bracket,
    kc: Bracket,
)
    requires
        balanced(a),
        balanced(b),
        balanced(c),
        t_outer.note == Token::Bracket(Opening::Open, ko),
        t_inner.note == Token::Bracket(Opening::Open, ki),
        t_close.note == Token::Bracket(Opening::Close, kc),
        ki != kc,
    ensures
        lex_errors(a + seq![t_outer] + b + seq![t_inner] + c + seq![t_close] + rest) == seq![
            TreeError::Tree(
                BracketError::Mismatch(bracket_span(t_inner, ki), bracket_span(t_close, kc)),
            ),
            TreeError::Tree(BracketError::Unmatched(bracket_span(t_outer, ko))),
        ],
{
    let bo = bracket_span(t_outer, ko);
    let bi = bracket_span(t_inner, ki);
    let bc = bracket_span(t_close, kc);
    let tail3 = seq![t_close] + rest;
    let tail2 = seq![t_inner] + (c + tail3);
    let mid = seq![t_outer] + (b + tail2);
    assert(a + seq![t_outer] + b + seq![t_inner] + c + seq![t_close] + rest =~= a + mid);
    lemma_scan_concat(a, mid, 0, Seq::empty());
    assert(mid[0] == t_outer);
    assert(Seq::<Span<Bracket>>::empty().push(bo) =~= seq![bo]);
    assert(scan_toks(mid, 0, Seq::empty()) == scan_toks(mid, 1, seq![bo]));
    lemma_scan_shift(seq![t_outer], b + tail2, 0, seq![bo]);
    assert(seq![t_outer] + (b + tail2) == mid);
    assert(scan_toks(mid, 1, seq![bo]) == scan_toks(b + tail2, 0, seq![bo]));
    lemma_scan_concat(b, tail2, 0, seq![bo]);
    assert(seq![bo] + Seq::<Span<Bracket>>::empty() =~= seq![bo]);
    lemma_scan_stack_extend(b, 0, Seq::empty(), seq![bo], Seq::empty());
    assert(scan_toks(b, 0, seq![bo]) == (Scan {
        errs: Seq::<TreeError>::empty(),
        stack: Some(seq![bo]),
    }));
    assert(tail2[0] == t_inner);
    assert(seq![bo].push(bi) =~= seq![bo, bi]);
    assert(scan_toks(tail2, 0, seq![bo]) == scan_toks(tail2, 1, seq![bo, bi]));
    lemma_scan_shift(seq![t_inner], c + tail3, 0, seq![bo, bi]);
    assert(seq![t_inner] + (c + tail3) == tail2);
    assert(scan_toks(tail2, 1, seq![bo, bi]) == scan_toks(c + tail3, 0, seq![bo, bi]));
    lemma_scan_concat(c, tail3, 0, seq![bo, bi]);
    assert(seq![bo, bi] + Seq::<Span<Bracket>>::empty() =~= seq![bo, bi]);
    lemma_scan_stack_extend(c, 0, Seq::empty(), seq![bo, bi], Seq::empty());
    assert(scan_toks(c, 0, seq![bo, bi]) == (Scan {
        errs: Seq::<TreeError>::empty(),
        stack: Some(seq![bo, bi]),
    }));
    assert(tail3[0] == t_close);
    assert(seq![bo, bi].last() == bi && seq![bo, bi].len() == 2);
    assert(seq![bo, bi].drop_last() =~= seq![bo]);
    assert(seq![bo].drop_last() =~= Seq::<Span<Bracket>>::empty());
    assert(drain(Seq::<Span<Bracket>>::empty()) =~= Seq::<TreeError>::empty());
    assert(drain(seq![bo]) =~= seq![TreeError::Tree(BracketError::Unmatched(bo))]);
    assert(scan_toks(tail3, 0, seq![bo, bi]) == (Scan {
        errs: seq![TreeError::Tree(BracketError::Mismatch(bi, bc))] + drain(seq![bo]),
        stack: None::<Seq<Span<Bracket>>>,
    }));
    assert(scan_toks(a + mid, 0, Seq::empty()).errs =~= seq![
        TreeError::Tree(BracketError::Mismatch(bi, bc)),
        TreeError::Tree(BracketError::Unmatched(bo)),
    ]);
    assert(scan_toks(a + mid, 0, Seq::empty()).stack is None);
    assert(lex_errors(a + mid) =~= seq![
        TreeError::Tree(BracketError::Mismatch(bi, bc)),
        TreeError::Tree(BracketError::Unmatched(bo)),
    ]);
}

/// The nesting weight of one token: open brackets push, close brackets pop.
pub open spec fn tok_depth(t: Token) -> int {
    match t {
        Token::Bracket(Opening::Open, b) => 1,
        Token::Bracket(Opening::Close, b) => -1,
        _ => 0,
    }
}

/// The nesting depth a token stream ends on.
pub open spec fn depth(s: Seq<Token>) -> int
    decreases s,
{
    if s.len() == 0 {
        0
    } else {
        depth(s.drop_last()) + tok_depth(s.last())
    }
}

/// Depth adds over pasted streams.
pub proof fn lemma_depth_add(a: Seq<Token>, b: Seq<Token>)
    ensures
        depth(a + b) == depth(a) + depth(b),
    decreases b.len(),
{
    if b.len() == 0 {
        assert(a + b =~= a);
    } else {
        assert((a + b).drop_last() =~= a + b.drop_last());
        assert((a + b).last() == b.last());
        lemma_depth_add(a, b.drop_last());
    }
}

/// No prefix of the stream closes more brackets than were opened before it.
pub open spec fn prefixes_nonneg(s: Seq<Token>) -> bool {
    forall|k: int| 0 <= k <= s.len() ==> depth(#[trigger] s.take(k)) >= 0
}

/// What a plain-leaved tree flattens to: a non-empty stream that opens as
/// many brackets as it closes and never closes one it did not open.
pub proof fn lemma_flatten_tree_balanced(t: TreeV)
    requires
        tree_leaves_plain(t),
    ensures
        flatten_tree(t).len() >= 1,
        depth(flatten_tree(t)) == 0,
        prefixes_nonneg(flatten_tree(t)),
    decreases t,
{
    match t {
        TreeV::Token(tok) => {
            let s = flatten_tree(t);
            assert(s =~= seq![tok]);
            assert(depth(Seq::<Token>::empty()) == 0);
            assert(s.drop_last() =~= Seq::<Token>::empty());
            assert(s.last() == tok);
            assert(depth(s) == 0);
            assert forall|k: int| 0 <= k <= s.len() implies depth(#[trigger] s.take(k)) >= 0 by {
                if k == 0 {
                    assert(s.take(0) =~= Seq::<Token>::empty());
                } else {
                    assert(s.take(k) =~= s);
                }
            }
        },
        TreeV::Tree(b, children) => {
            lemma_flatten_forest_balanced(children);
            let o = seq![Token::Bracket(Opening::Open, b)];
            let c = seq![Token::Bracket(Opening::Close, b)];
            let x = flatten_forest(children);
            let s = flatten_tree(t);
            assert(s == o + x + c);
            lemma_depth_add(o, x);
            lemma_depth_add(o + x, c);
            assert(depth(Seq::<Token>::empty()) == 0);
            assert(o.drop_last() =~= Seq::<Token>::empty());
            assert(c.drop_last() =~= Seq::<Token>::empty());
            assert(o.last() == Token::Bracket(Opening::Open, b));
            assert(c.last() == Token::Bracket(Opening::Close, b));
            assert(depth(o) == 1 && depth(c) == -1);
            assert(depth(s) == 0);
            assert forall|k: int| 0 <= k <= s.len() implies depth(#[trigger] s.take(k)) >= 0 by {
                if k == 0 {
                    assert(s.take(0) =~= Seq::<Token>::empty());
                } else if k <= 1 + x.len() {
                    assert(s.take(k) =~= o + x.take(k - 1));
                    lemma_depth_add(o, x.take(k - 1));
                } else {
                    assert(s.take(k) =~= s);
                }
            }
        },
    }
}

/// What a plain-leaved forest flattens to: a stream that opens as many
/// brackets as it closes and never closes one it did not open.
pub proof fn lemma_flatten_forest_balanced(f: Seq<TreeV>)
    requires
        forest_leaves_plain(f),
    ensures
        depth(flatten_forest(f)) == 0,
        prefixes_nonneg(flatten_forest(f)),
    decreases f,
{
    lemma_leaves_plain_elementwise(f);
    if f.len() == 0 {
        assert(flatten_forest(f).take(0) =~= Seq::<Token>::empty());
    } else {
        let rest = f.drop_first();
        lemma_leaves_plain_of(f, rest);
        lemma_flatten_tree_balanced(f[0]);
        lemma_flatten_forest_balanced(rest);
        let a = flatten_tree(f[0]);
        let bxs = flatten_forest(rest);
        let s = flatten_forest(f);
        assert(s == a + bxs);
        lemma_depth_add(a, bxs);
        assert forall|k: int| 0 <= k <= s.len() implies depth(#[trigger] s.take(k)) >= 0 by {
            if k <= a.len() {
                assert(s.take(k) =~= a.take(k));
            } else {
                assert(s.take(k) =~= a + bxs.take(k - a.len()));
                lemma_depth_add(a, bxs.take(k - a.len()));
            }
        }
    }
}

/// A forest's leaves are plain exactly when each tree's are.
pub proof fn lemma_leaves_plain_elementwise(f: Seq<TreeV>)
    ensures
        forest_leaves_plain(f) <==> (forall|i: int|
            0 <= i < f.len() ==> tree_leaves_plain(#[trigger] f[i])),
    decreases f.len(),
{
    if f.len() > 0 {
        lemma_leaves_plain_elementwise(f.drop_last());
        if forest_leaves_plain(f.drop_last()) && tree_leaves_plain(f.last()) {
            assert forall|i: int| 0 <= i < f.len() implies tree_leaves_plain(#[trigger] f[i]) by {
                if i < f.len() - 1 {
                    assert(f[i] == f.drop_last()[i]);
                }
            }
        }
        if forall|i: int| 0 <= i < f.len() ==> tree_leaves_plain(#[trigger] f[i]) {
            assert forall|i: int|
                0 <= i < f.drop_last().len() implies tree_leaves_plain(
                #[trigger] f.drop_last()[i],
            ) by {
                assert(f.drop_last()[i] == f[i]);
            }
        }
    }
}

/// Leaves stay plain on any subset-by-index of the forest.
pub proof fn lemma_leaves_plain_of(f: Seq<TreeV>, sub: Seq<TreeV>)
    requires
        forest_leaves_plain(f),
        f.len() >= 1,
        sub == f.drop_first(),
    ensures
        forest_leaves_plain(sub),
{
    lemma_leaves_plain_elementwise(f);
    lemma_leaves_plain_elementwise(sub);
    assert forall|i: int| 0 <= i < sub.len() implies tree_leaves_plain(#[trigger] sub[i]) by {
        assert(f.drop_first()[i] == f[i + 1]);
        assert(sub[i] == f.drop_first()[i]);
        assert(tree_leaves_plain(f[i + 1]));
    }
}

/// Two balanced streams followed by a close bracket split a shared stream
/// the same way: the close after a balanced prefix is the first token that
/// would close an unopened bracket, so its position is determined.
pub proof fn lemma_balanced_close_split(
    x1: Seq<Token>,
    c1: Token,
    y1: Seq<Token>,
    x2: Seq<Token>,
    c2: Token,
    y2: Seq<Token>,
)
    requires
        x1 + seq![c1] + y1 == x2 + seq![c2] + y2,
        depth(x1) == 0,
        prefixes_nonneg(x1),
        depth(x2) == 0,
        prefixes_nonneg(x2),
        tok_depth(c1) == -1,
        tok_depth(c2) == -1,
    ensures
        x1 == x2,
        c1 == c2,
        y1 == y2,
{
    let t = x1 + seq![c1] + y1;
    let lhs1 = x1 + seq![c1];
    let lhs2 = x2 + seq![c2];
    assert(depth(Seq::<Token>::empty()) == 0);
    assert(forall|i: int| 0 <= i < lhs1.len() ==> #[trigger] lhs1[i] == t[i]);
    assert(t == lhs2 + y2);
    assert(forall|i: int| 0 <= i < lhs2.len() ==> #[trigger] lhs2[i] == t[i]);
    assert(forall|i: int| 0 <= i < x1.len() ==> #[trigger] x1[i] == lhs1[i]);
    assert(forall|i: int| 0 <= i < x2.len() ==> #[trigger] x2[i] == lhs2[i]);
    if x1.len() < x2.len() {
        assert(x2.take(x1.len() + 1 as int) =~= lhs1);
        lemma_depth_add(x1, seq![c1]);
        assert(seq![c1].drop_last() =~= Seq::<Token>::empty());
        assert(seq![c1].last() == c1);
        assert(depth(lhs1) == -1);
        assert(false);
    }
    if x2.len() < x1.len() {
        assert(x1.take(x2.len() + 1 as int) =~= lhs2);
        lemma_depth_add(x2, seq![c2]);
        assert(seq![c2].drop_last() =~= Seq::<Token>::empty());
        assert(seq![c2].last() == c2);
        assert(depth(lhs2) == -1);
        assert(false);
    }
    assert(x1.len() == x2.len());
    assert(x1 =~= x2);
    assert(lhs1[x1.len() as int] == c1 && lhs2[x2.len() as int] == c2);
    assert(c1 == t[x1.len() as int] && c2 == t[x1.len() as int]);
    assert((lhs1 + y1).len() == lhs1.len() + y1.len());
    assert((lhs2 + y2).len() == lhs2.len() + y2.len());
    assert(lhs1.len() == x1.len() + 1 && lhs2.len() == x2.len() + 1);
    assert(t == lhs2 + y2);
    assert(y1.len() == y2.len());
    assert forall|i: int| 0 <= i < y1.len() implies y1[i] == y2[i] by {
        assert(y1[i] == (lhs1 + y1)[i + lhs1.len()]);
        assert(y2[i] == (lhs2 + y2)[i + lhs2.len()]);
        assert(t == lhs1 + y1 && t == lhs2 + y2);
    }
    assert(y1 =~= y2);
}

/// Flattening is injective on plain-leaved forests: the forest `Tree::lex`
/// hands back is the only one that flattens to the token stream, so its
/// contract pins the forest completely.
pub proof fn lemma_flatten_injective(f1: Seq<TreeV>, f2: Seq<TreeV>)
    requires
        forest_leaves_plain(f1),
        forest_leaves_plain(f2),
        flatten_forest(f1) == flatten_forest(f2),
    ensures
        f1 == f2,
    decreases flatten_forest(f1).len(),
{
    lemma_leaves_plain_elementwise(f1);
    lemma_leaves_plain_elementwise(f2);
    if f1.len() == 0 || f2.len() == 0 {
        if f1.len() == 0 && f2.len() > 0 {
            lemma_flatten_tree_balanced(f2[0]);
            assert(flatten_forest(f2).len() >= flatten_tree(f2[0]).len()) by {
                lemma_flatten_len_head(f2);
            }
            assert(false);
        }
        if f2.len() == 0 && f1.len() > 0 {
            lemma_flatten_tree_balanced(f1[0]);
            lemma_flatten_len_head(f1);
            assert(false);
        }
        assert(f1 =~= f2);
    } else {
        let rest1 = f1.drop_first();
        let rest2 = f2.drop_first();
        lemma_leaves_plain_of(f1, rest1);
        lemma_leaves_plain_of(f2, rest2);
        lemma_flatten_tree_balanced(f1[0]);
        lemma_flatten_tree_balanced(f2[0]);
        let t = flatten_forest(f1);
        match (f1[0], f2[0]) {
            (TreeV::Token(a1), TreeV::Token(a2)) => {
                assert(t[0] == a1 && t[0] == a2);
                assert(flatten_forest(rest1) =~= flatten_forest(rest2)) by {
                    assert(forall|i: int|
                        0 <= i < flatten_forest(rest1).len() ==> #[trigger] flatten_forest(
                            rest1,
                        )[i] == t[1 + i] && flatten_forest(rest2)[i] == t[1 + i]);
                }
                lemma_flatten_injective(rest1, rest2);
                assert(f1 =~= f2) by {
                    assert(forall|i: int| 1 <= i < f1.len() ==> #[trigger] f1[i] == rest1[i - 1]);
                    assert(forall|i: int| 1 <= i < f2.len() ==> #[trigger] f2[i] == rest2[i - 1]);
                }
            },
            (TreeV::Token(a1), TreeV::Tree(b2, ch2)) => {
                assert(t[0] == a1);
                assert(t[0] == Token::Bracket(Opening::Open, b2));
                assert(false);
            },
            (TreeV::Tree(b1, ch1), TreeV::Token(a2)) => {
                assert(t[0] == a2);
                assert(t[0] == Token::Bracket(Opening::Open, b1));
                assert(false);
            },
            (TreeV::Tree(b1, ch1), TreeV::Tree(b2, ch2)) => {
                assert(t[0] == Token::Bracket(Opening::Open, b1));
                assert(t[0] == Token::Bracket(Opening::Open, b2));
                let x1 = flatten_forest(ch1);
                let x2 = flatten_forest(ch2);
                let c1 = Token::Bracket(Opening::Close, b1);
                let c2 = Token::Bracket(Opening::Close, b2);
                let y1 = flatten_forest(rest1);
                let y2 = flatten_forest(rest2);
                lemma_flatten_forest_balanced(ch1);
                lemma_flatten_forest_balanced(ch2);
                assert(x1 + seq![c1] + y1 =~= x2 + seq![c2] + y2) by {
                    assert(t == flatten_tree(f1[0]) + y1);
                    assert(t == flatten_tree(f2[0]) + y2);
                    assert(forall|i: int|
                        0 <= i < (x1 + seq![c1] + y1).len() ==> #[trigger] (x1 + seq![c1]
                            + y1)[i] == t[1 + i]);
                    assert(forall|i: int|
                        0 <= i < (x2 + seq![c2] + y2).len() ==> #[trigger] (x2 + seq![c2]
                            + y2)[i] == t[1 + i]);
                }
                lemma_balanced_close_split(x1, c1, y1, x2, c2, y2);
                assert(flatten_tree(f1[0]).len() >= 1);
                assert(x1.len() < t.len());
                lemma_flatten_injective(ch1, ch2);
                lemma_flatten_injective(rest1, rest2);
                assert(f1 =~= f2) by {
                    assert(forall|i: int| 1 <= i < f1.len() ==> #[trigger] f1[i] == rest1[i - 1]);
                    assert(forall|i: int| 1 <= i < f2.len() ==> #[trigger] f2[i] == rest2[i - 1]);
                }
            },
        }
    }
}

/// A non-empty forest flattens to at least its first tree's stream.
pub proof fn lemma_flatten_len_head(f: Seq<TreeV>)
    requires
        f.len() > 0,
    ensures
        flatten_forest(f).len() >= flatten_tree(f[0]).len(),
{
    assert(flatten_forest(f) == flatten_tree(f[0]) + flatten_forest(f.drop_first()));
}

} // verus!
