//! Bracket validation over the flat token stream.
//!
//! `TreeSpans` walks the stream keeping a stack of the currently open
//! brackets and reports one event per token: enter a pair, leave a pair, a
//! plain token, or a structural fault. `Tree::lex` folds those events into
//! a forest where each matched pair becomes one node wrapping its interior,
//! or into the complete list of structural and token-level faults. A close
//! bracket that pairs with nothing is fatal: nesting is no longer trusted,
//! so scanning stops there — and then, exactly as when the input ends with
//! brackets still open, the remainder degrades into a flat drain producing
//! one `Unmatched` fault per still-open entry, most recent first, so the
//! final fault list names every unclosed bracket.

use vstd::prelude::*;
use vstd::string::StringSliceAdditionalSpecFns;

use crate::scanner;
use crate::span::Span;
use crate::token::Bracket;
use crate::token::LexerError;
use crate::token::Opening;
use crate::token::Token;

verus! {

/// A structural bracket fault.
#[derive(Clone, Copy, Debug, PartialEq, Eq, Structural)]
pub enum BracketError {
    /// The close bracket (second) does not pair with the innermost open
    /// bracket (first).
    Mismatch(Span<Bracket>, Span<Bracket>),
    /// A close bracket with no open bracket pending.
    Unexpected(Span<Bracket>),
    /// An open bracket still pending when the input ends or nesting stops
    /// being trusted.
    Unmatched(Span<Bracket>),
}

/// One event of the bracket-validating walk.
#[derive(Clone, Copy, Debug, PartialEq, Eq, Structural)]
pub enum TreeSpansResult {
    /// A plain token, neither bracket nor fault.
    Token(Span<Token>),
    /// A token-level fault carried through unchanged.
    TokenError(Span<LexerError>),
    /// A structural fault.
    TreeError(BracketError),
    /// A bracket pair opens.
    In(Span<Bracket>),
    /// A bracket pair closes.
    Out(Span<Bracket>),
}

/// A fault reported by `Tree::lex`: token-level or structural.
#[derive(Clone, Copy, Debug, PartialEq, Eq, Structural)]
pub enum TreeError {
    Token(Span<LexerError>),
    Tree(BracketError),
}

/// One node of the lexed forest: a plain token, or a matched bracket pair
/// wrapping the forest of its interior.
#[derive(Debug, PartialEq, Eq)]
pub enum Tree {
    Token(Token),
    Tree(Bracket, Vec<Tree>),
}

/// The mathematical shape of a `Tree`, children as a sequence.
pub enum TreeV {
    Token(Token),
    Tree(Bracket, Seq<TreeV>),
}

/// The mathematical shape of a `Tree` value.
pub open spec fn tree_view(t: Tree) -> TreeV
    decreases t,
{
    match t {
        Tree::Token(tok) => TreeV::Token(tok),
        Tree::Tree(b, children) => TreeV::Tree(b, forest_view(children@)),
    }
}

/// The mathematical shape of a forest.
pub open spec fn forest_view(ts: Seq<Tree>) -> Seq<TreeV>
    decreases ts,
{
    if ts.len() == 0 {
        Seq::empty()
    } else {
        forest_view(ts.drop_last()).push(tree_view(ts.last()))
    }
}

/// The token stream a single tree stands for: a matched pair turns back
/// into its open bracket, its flattened interior, and its close bracket.
pub open spec fn flatten_tree(t: TreeV) -> Seq<Token>
    decreases t,
{
    match t {
        TreeV::Token(tok) => seq![tok],
        TreeV::Tree(b, children) => seq![Token::Bracket(Opening::Open, b)] + flatten_forest(
            children,
        ) + seq![Token::Bracket(Opening::Close, b)],
    }
}

/// The token stream a forest stands for.
pub open spec fn flatten_forest(ts: Seq<TreeV>) -> Seq<Token>
    decreases ts,
{
    if ts.len() == 0 {
        Seq::empty()
    } else {
        flatten_tree(ts[0]) + flatten_forest(ts.drop_first())
    }
}

/// Appending a tree to a forest appends its flattening.
pub proof fn lemma_flatten_push(ts: Seq<TreeV>, x: TreeV)
    ensures
        flatten_forest(ts.push(x)) == flatten_forest(ts) + flatten_tree(x),
    decreases ts.len(),
{
    if ts.len() == 0 {
        assert(ts.push(x)[0] == x);
        assert(ts.push(x).drop_first() =~= Seq::<TreeV>::empty());
        assert(flatten_forest(ts.push(x)) == flatten_tree(x) + flatten_forest(
            Seq::<TreeV>::empty(),
        ));
        assert(flatten_forest(ts.push(x)) =~= flatten_tree(x));
        assert(flatten_forest(ts) + flatten_tree(x) =~= flatten_tree(x));
    } else {
        assert(ts.push(x).drop_first() =~= ts.drop_first().push(x));
        lemma_flatten_push(ts.drop_first(), x);
        assert(flatten_forest(ts.push(x)) == flatten_tree(ts[0]) + (flatten_forest(ts.drop_first())
            + flatten_tree(x)));
        assert(flatten_forest(ts) + flatten_tree(x) == (flatten_tree(ts[0]) + flatten_forest(
            ts.drop_first(),
        )) + flatten_tree(x));
        assert(flatten_tree(ts[0]) + (flatten_forest(ts.drop_first()) + flatten_tree(x)) =~= (
        flatten_tree(ts[0]) + flatten_forest(ts.drop_first())) + flatten_tree(x));
    }
}

/// Appending to a forest appends to its view.
pub proof fn lemma_forest_view_push(ts: Seq<Tree>, x: Tree)
    ensures
        forest_view(ts.push(x)) == forest_view(ts).push(tree_view(x)),
{
    assert(ts.push(x).drop_last() =~= ts);
    assert(ts.push(x).last() == x);
}

/// A tree whose leaves are all plain tokens: every bracket of the stream
/// became a pair node, none is left as a leaf. Together with the flattening
/// this pins the lexed forest completely: no two such forests flatten to
/// the same stream.
pub open spec fn tree_leaves_plain(t: TreeV) -> bool
    decreases t,
{
    match t {
        TreeV::Token(tok) => !(tok is Bracket),
        TreeV::Tree(b, children) => forest_leaves_plain(children),
    }
}

/// A forest whose leaves are all plain tokens.
pub open spec fn forest_leaves_plain(ts: Seq<TreeV>) -> bool
    decreases ts,
{
    if ts.len() == 0 {
        true
    } else {
        forest_leaves_plain(ts.drop_last()) && tree_leaves_plain(ts.last())
    }
}

/// Appending a tree keeps a forest's leaves plain exactly when its own are.
pub proof fn lemma_leaves_plain_push(ts: Seq<TreeV>, x: TreeV)
    ensures
        forest_leaves_plain(ts.push(x)) == (forest_leaves_plain(ts) && tree_leaves_plain(x)),
{
    assert(ts.push(x).drop_last() =~= ts);
    assert(ts.push(x).last() == x);
}

/// The bare kinds of a token stream, spans dropped.
pub open spec fn token_kinds(toks: Seq<Span<Token>>) -> Seq<Token> {
    toks.map_values(|t: Span<Token>| t.note)
}

/// The bracket span of a bracket token.
pub open spec fn bracket_span(t: Span<Token>, b: Bracket) -> Span<Bracket> {
    Span { note: b, from: t.from, to: t.to }
}

/// The fault span of a scanner-fault token.
pub open spec fn fault_span(t: Span<Token>, e: LexerError) -> Span<LexerError> {
    Span { note: e, from: t.from, to: t.to }
}

/// The `Unmatched` faults of the brackets still open when scanning ends —
/// at the end of input or at a fatal close — most recent first.
pub open spec fn drain(stack: Seq<Span<Bracket>>) -> Seq<TreeError>
    decreases stack.len(),
{
    if stack.len() == 0 {
        Seq::empty()
    } else {
        seq![TreeError::Tree(BracketError::Unmatched(stack.last()))] + drain(stack.drop_last())
    }
}

/// Draining reports exactly one fault per open bracket.
pub proof fn lemma_drain_len(stack: Seq<Span<Bracket>>)
    ensures
        drain(stack).len() == stack.len(),
    decreases stack.len(),
{
    if stack.len() > 0 {
        lemma_drain_len(stack.drop_last());
    }
}

/// What scanning the stream from position `i` with the given open-bracket
/// stack produces: the faults in encounter order, and the stack left when
/// the end of input is reached — `None` when a fatal close bracket
/// (unexpected or mismatched) stopped the scan there, in which case the
/// fault list already ends with the drain of the brackets that were still
/// open outside the fault.
pub struct Scan {
    pub errs: Seq<TreeError>,
    pub stack: Option<Seq<Span<Bracket>>>,
}

/// One earlier fault, then everything a later scan produces.
pub open spec fn scan_prepend(e: TreeError, sc: Scan) -> Scan {
    Scan { errs: seq![e] + sc.errs, stack: sc.stack }
}

/// Scan the stream from position `i` with `stack` open.
pub open spec fn scan_toks(toks: Seq<Span<Token>>, i: int, stack: Seq<Span<Bracket>>) -> Scan
    decreases toks.len() - i,
{
    if i < 0 || i >= toks.len() {
        Scan { errs: Seq::empty(), stack: Some(stack) }
    } else {
        let t = toks[i];
        match t.note {
            Token::Bracket(Opening::Open, b) => scan_toks(toks, i + 1, stack.push(bracket_span(t, b))),
            Token::Bracket(Opening::Close, b) => {
                if stack.len() == 0 {
                    Scan {
                        errs: seq![TreeError::Tree(BracketError::Unexpected(bracket_span(t, b)))],
                        stack: None,
                    }
                } else if stack.last().note == b {
                    scan_toks(toks, i + 1, stack.drop_last())
                } else {
                    Scan {
                        errs: seq![
                            TreeError::Tree(
                                BracketError::Mismatch(stack.last(), bracket_span(t, b)),
                            ),
                        ] + drain(stack.drop_last()),
                        stack: None,
                    }
                }
            },
            Token::Unknown => scan_prepend(
                TreeError::Token(fault_span(t, LexerError::Unknown)),
                scan_toks(toks, i + 1, stack),
            ),
            Token::UnterminatedQuote => scan_prepend(
                TreeError::Token(fault_span(t, LexerError::UnterminatedQuote)),
                scan_toks(toks, i + 1, stack),
            ),
            _ => scan_toks(toks, i + 1, stack),
        }
    }
}

/// Every fault of the stream, in the order `Tree::lex` reports them:
/// token-level faults and the one fatal close in encounter order, then the
/// brackets still open when scanning stopped, most recent first — after a
/// fatal close the scan itself carries that drain.
pub open spec fn lex_errors(toks: Seq<Span<Token>>) -> Seq<TreeError> {
    let sc = scan_toks(toks, 0, Seq::empty());
    match sc.stack {
        Some(stack) => sc.errs + drain(stack),
        None => sc.errs,
    }
}

/// The state of a bracket-validating walk.
pub struct TreeSpansV {
    pub tokens: Seq<Span<Token>>,
    pub pos: int,
    pub closes: Seq<Span<Bracket>>,
    pub done: bool,
    pub err: bool,
}

/// One step of the walk: the state after it and the event it reports.
pub open spec fn spec_next(st: TreeSpansV) -> (TreeSpansV, Option<TreeSpansResult>) {
    if st.done {
        (st, None)
    } else if st.err {
        if st.closes.len() > 0 {
            (
                TreeSpansV { closes: st.closes.drop_last(), ..st },
                Some(TreeSpansResult::TreeError(BracketError::Unmatched(st.closes.last()))),
            )
        } else {
            (TreeSpansV { done: true, ..st }, None)
        }
    } else if 0 <= st.pos < st.tokens.len() {
        let t = st.tokens[st.pos];
        match t.note {
            Token::Bracket(Opening::Open, b) => (
                TreeSpansV { pos: st.pos + 1, closes: st.closes.push(bracket_span(t, b)), ..st },
                Some(TreeSpansResult::In(bracket_span(t, b))),
            ),
            Token::Bracket(Opening::Close, b) => {
                if st.closes.len() == 0 {
                    (
                        TreeSpansV { pos: st.pos + 1, done: true, ..st },
                        Some(TreeSpansResult::TreeError(BracketError::Unexpected(bracket_span(t, b)))),
                    )
                } else if st.closes.last().note == b {
                    (
                        TreeSpansV { pos: st.pos + 1, closes: st.closes.drop_last(), ..st },
                        Some(TreeSpansResult::Out(bracket_span(t, b))),
                    )
                } else {
                    (
                        TreeSpansV {
                            pos: st.pos + 1,
                            closes: st.closes.drop_last(),
                            err: true,
                            ..st
                        },
                        Some(TreeSpansResult::TreeError(BracketError::Mismatch(
                            st.closes.last(),
                            bracket_span(t, b),
                        ))),
                    )
                }
            },
            Token::Unknown => (
                TreeSpansV { pos: st.pos + 1, ..st },
                Some(TreeSpansResult::TokenError(fault_span(t, LexerError::Unknown))),
            ),
            Token::UnterminatedQuote => (
                TreeSpansV { pos: st.pos + 1, ..st },
                Some(TreeSpansResult::TokenError(fault_span(t, LexerError::UnterminatedQuote))),
            ),
            _ => (TreeSpansV { pos: st.pos + 1, ..st }, Some(TreeSpansResult::Token(t))),
        }
    } else if st.closes.len() > 0 {
        (
            TreeSpansV { closes: st.closes.drop_last(), err: true, ..st },
            Some(TreeSpansResult::TreeError(BracketError::Unmatched(st.closes.last()))),
        )
    } else {
        (TreeSpansV { done: true, ..st }, None)
    }
}

/// The bracket-validating walk over the token stream.
pub struct TreeSpans {
    pub tokens: Vec<Span<Token>>,
    pub pos: usize,
    pub closes: Vec<Span<Bracket>>,
    pub done: bool,
    pub err: bool,
}

impl View for TreeSpans {
    type V = TreeSpansV;

    open spec fn view(&self) -> TreeSpansV {
        TreeSpansV {
            tokens: self.tokens@,
            pos: self.pos as int,
            closes: self.closes@,
            done: self.done,
            err: self.err,
        }
    }
}

impl TreeSpans {
    /// Start a walk over the token stream of `src`.
    pub fn new(src: &str) -> (r: Self)
        ensures
            r@.tokens == scanner::spec_tokens(src.spec_bytes()),
            r@.pos == 0,
            r@.closes == Seq::<Span<Bracket>>::empty(),
            !r@.done,
            !r@.err,
    {
        TreeSpans {
            tokens: scanner::tokenize(src),
            pos: 0,
            closes: Vec::new(),
            done: false,
            err: false,
        }
    }

    /// Report the next event of the walk, or `None` when it has ended.
    pub fn next(&mut self) -> (r: Option<TreeSpansResult>)
        requires
            old(self)@.pos <= old(self)@.tokens.len(),
        ensures
            (final(self)@, r) == spec_next(old(self)@),
            final(self)@.tokens == old(self)@.tokens,
            final(self)@.pos <= final(self)@.tokens.len(),
    {
        if self.done {
            None
        } else if self.err {
            match self.closes.pop() {
                Some(sp) => Some(TreeSpansResult::TreeError(BracketError::Unmatched(sp))),
                None => {
                    self.done = true;
                    None
                },
            }
        } else if self.pos < self.tokens.len() {
            let t = self.tokens[self.pos];
            self.pos = self.pos + 1;
            match t.note {
                Token::Bracket(Opening::Open, b) => {
                    let bs = Span { note: b, from: t.from, to: t.to };
                    self.closes.push(bs);
                    Some(TreeSpansResult::In(bs))
                },
                Token::Bracket(Opening::Close, b) => {
                    let bs = Span { note: b, from: t.from, to: t.to };
                    match self.closes.pop() {
                        Some(open) => {
                            if open.note == b {
                                Some(TreeSpansResult::Out(bs))
                            } else {
                                self.err = true;
                                Some(TreeSpansResult::TreeError(BracketError::Mismatch(open, bs)))
                            }
                        },
                        None => {
                            self.done = true;
                            Some(TreeSpansResult::TreeError(BracketError::Unexpected(bs)))
                        },
                    }
                },
                Token::Unknown => Some(
                    TreeSpansResult::TokenError(
                        Span { note: LexerError::Unknown, from: t.from, to: t.to },
                    ),
                ),
                Token::UnterminatedQuote => Some(
                    TreeSpansResult::TokenError(
                        Span { note: LexerError::UnterminatedQuote, from: t.from, to: t.to },
                    ),
                ),
                _ => Some(TreeSpansResult::Token(t)),
            }
        } else {
            match self.closes.pop() {
                Some(sp) => {
                    self.err = true;
                    Some(TreeSpansResult::TreeError(BracketError::Unmatched(sp)))
                },
                None => {
                    self.done = true;
                    None
                },
            }
        }
    }
}

/// The stream a paused build stands for: each pending layer contributes the
/// forest saved when its bracket opened and the open bracket itself, and
/// the innermost forest under construction comes last.
pub open spec fn flat_state(
    brs: Seq<Span<Bracket>>,
    layers: Seq<Vec<Tree>>,
    cur: Seq<Tree>,
) -> Seq<Token>
    decreases brs.len(),
{
    if brs.len() == 0 || layers.len() == 0 {
        flatten_forest(forest_view(cur))
    } else {
        flat_state(brs.drop_last(), layers.drop_last(), layers.last()@) + seq![
            Token::Bracket(Opening::Open, brs.last().note),
        ] + flatten_forest(forest_view(cur))
    }
}

/// Appending a tree to the innermost forest appends its flattening to the
/// paused build's stream.
pub proof fn lemma_flat_state_push(
    brs: Seq<Span<Bracket>>,
    layers: Seq<Vec<Tree>>,
    cur: Seq<Tree>,
    x: Tree,
)
    ensures
        flat_state(brs, layers, cur.push(x)) == flat_state(brs, layers, cur) + flatten_tree(
            tree_view(x),
        ),
{
    lemma_forest_view_push(cur, x);
    lemma_flatten_push(forest_view(cur), tree_view(x));
    if brs.len() == 0 || layers.len() == 0 {
    } else {
        assert(flat_state(brs, layers, cur.push(x)) =~= flat_state(brs, layers, cur)
            + flatten_tree(tree_view(x)));
    }
}

/// The lexed forest.
pub type Trees = Vec<Tree>;

impl Tree {
    /// Lex `src` into a forest — one node per matched bracket pair, one
    /// leaf per other token — or into the complete fault list: every
    /// token-level fault, the one fatal close if any, and one `Unmatched`
    /// for every bracket still open when scanning ended, most recent first.
    ///
    /// Success and failure are exclusive and total: the forest comes back
    /// exactly when the stream has no fault, and it flattens back to the
    /// token stream, so no token is lost or invented.
    pub fn lex(src: &str) -> (r: Result<Vec<Tree>, Vec<TreeError>>)
        ensures
            ({
                let toks = scanner::spec_tokens(src.spec_bytes());
                match r {
                    Ok(f) => lex_errors(toks) == Seq::<TreeError>::empty() && flatten_forest(
                        forest_view(f@),
                    ) == token_kinds(toks) && forest_leaves_plain(forest_view(f@)),
                    Err(e) => e@ == lex_errors(toks) && e@.len() > 0,
                }
            }),
    {
        let tokens = scanner::tokenize(src);
        Self::lex_tokens(tokens)
    }

    /// Lex an already-scanned token stream into a forest or its faults.
    pub fn lex_tokens(tokens: Vec<Span<Token>>) -> (r: Result<Vec<Tree>, Vec<TreeError>>)
        ensures
            ({
                let toks = tokens@;
                match r {
                    Ok(f) => lex_errors(toks) == Seq::<TreeError>::empty() && flatten_forest(
                        forest_view(f@),
                    ) == token_kinds(toks) && forest_leaves_plain(forest_view(f@)),
                    Err(e) => e@ == lex_errors(toks) && e@.len() > 0,
                }
            }),
    {
        let ghost toks = tokens@;
        let ghost full = scan_toks(toks, 0, Seq::<Span<Bracket>>::empty());
        let n = tokens.len();
        let mut errors: Vec<TreeError> = Vec::new();
        let mut stack_br: Vec<Span<Bracket>> = Vec::new();
        let mut stack_trees: Vec<Vec<Tree>> = Vec::new();
        let mut current: Vec<Tree> = Vec::new();
        let mut i: usize = 0;
        let mut aborted = false;
        proof {
            assert(full.errs =~= errors@ + scan_toks(toks, 0, stack_br@).errs);
            assert(token_kinds(toks.take(0)) =~= Seq::<Token>::empty());
        }
        while i < n && !aborted
            invariant
                0 <= i <= n == toks.len(),
                toks == tokens@,
                full == scan_toks(toks, 0, Seq::<Span<Bracket>>::empty()),
                !aborted ==> full.errs == errors@ + scan_toks(toks, i as int, stack_br@).errs,
                !aborted ==> full.stack == scan_toks(toks, i as int, stack_br@).stack,
                aborted ==> full.errs == errors@ + drain(stack_br@) && full.stack is None
                    && errors@.len() > 0,
                errors@.len() == 0 ==> stack_br@.len() == stack_trees@.len(),
                errors@.len() == 0 ==> flat_state(stack_br@, stack_trees@, current@)
                    == token_kinds(toks.take(i as int)),
                errors@.len() == 0 ==> forest_leaves_plain(forest_view(current@)),
                errors@.len() == 0 ==> forall|j: int|
                    0 <= j < stack_trees@.len() ==> forest_leaves_plain(
                        forest_view((#[trigger] stack_trees@[j])@),
                    ),
            decreases n - i,
        {
            let ghost errors0 = errors@;
            let ghost brs0 = stack_br@;
            let ghost lay0 = stack_trees@;
            let ghost cur0 = current@;
            let t = tokens[i];
            let building = errors.len() == 0;
            proof {
                assert(token_kinds(toks.take(i + 1)) =~= token_kinds(toks.take(i as int)).push(
                    t.note,
                ));
            }
            match t.note {
                Token::Bracket(Opening::Open, b) => {
                    let bs = Span { note: b, from: t.from, to: t.to };
                    stack_br.push(bs);
                    if building {
                        let inner_saved = current;
                        let ghost inner_saved_v = inner_saved@;
                        stack_trees.push(inner_saved);
                        current = Vec::new();
                        proof {
                            assert(stack_br@.drop_last() =~= brs0);
                            assert(stack_trees@.drop_last() =~= lay0);
                            assert(stack_trees@.last()@ == inner_saved_v);
                            assert(forest_view(current@) =~= Seq::<TreeV>::empty());
                            assert(flat_state(stack_br@, stack_trees@, current@) =~= flat_state(
                                brs0,
                                lay0,
                                cur0,
                            ) + seq![t.note]);
                        }
                    }
                },
                Token::Bracket(Opening::Close, b) => {
                    let bs = Span { note: b, from: t.from, to: t.to };
                    match stack_br.pop() {
                        Some(open) => {
                            proof {
                                assert(open == brs0.last());
                                assert(stack_br@ =~= brs0.drop_last());
                            }
                            if open.note == b {
                                if building {
                                    match stack_trees.pop() {
                                        Some(prev) => {
                                            proof {
                                                assert(prev == lay0.last());
                                                assert(stack_trees@ =~= lay0.drop_last());
                                            }
                                            let mut prev = prev;
                                            let ghost prev0 = prev@;
                                            let inner = current;
                                            prev.push(Tree::Tree(b, inner));
                                            current = prev;
                                            proof {
                                                let x = current@.last();
                                                assert(current@ == prev0.push(x));
                                                lemma_flat_state_push(
                                                    stack_br@,
                                                    stack_trees@,
                                                    prev0,
                                                    x,
                                                );
                                                assert(tree_view(x) == TreeV::Tree(
                                                    b,
                                                    forest_view(cur0),
                                                ));
                                                assert(flat_state(
                                                    stack_br@,
                                                    stack_trees@,
                                                    current@,
                                                ) =~= flat_state(brs0, lay0, cur0) + seq![t.note]);
                                                lemma_forest_view_push(prev0, x);
                                                lemma_leaves_plain_push(
                                                    forest_view(prev0),
                                                    tree_view(x),
                                                );
                                                assert(forest_leaves_plain(forest_view(prev0)));
                                            }
                                        },
                                        None => {
                                            proof {
                                                assert(false);
                                            }
                                        },
                                    }
                                }
                            } else {
                                errors.push(TreeError::Tree(BracketError::Mismatch(open, bs)));
                                aborted = true;
                                proof {
                                    assert(scan_toks(toks, i as int, brs0).errs =~= seq![
                                        TreeError::Tree(BracketError::Mismatch(open, bs)),
                                    ] + drain(stack_br@));
                                    assert(full.errs =~= errors@ + drain(stack_br@));
                                }
                            }
                        },
                        None => {
                            errors.push(TreeError::Tree(BracketError::Unexpected(bs)));
                            aborted = true;
                            proof {
                                assert(drain(stack_br@) =~= Seq::<TreeError>::empty());
                                assert(full.errs =~= errors@ + drain(stack_br@));
                            }
                        },
                    }
                },
                Token::Unknown => {
                    errors.push(
                        TreeError::Token(Span { note: LexerError::Unknown, from: t.from, to: t.to }),
                    );
                    proof {
                        assert(errors0 + (seq![
                            TreeError::Token(fault_span(t, LexerError::Unknown)),
                        ] + scan_toks(toks, i + 1, stack_br@).errs) =~= errors@ + scan_toks(
                            toks,
                            i + 1,
                            stack_br@,
                        ).errs);
                    }
                },
                Token::UnterminatedQuote => {
                    errors.push(
                        TreeError::Token(
                            Span { note: LexerError::UnterminatedQuote, from: t.from, to: t.to },
                        ),
                    );
                    proof {
                        assert(errors0 + (seq![
                            TreeError::Token(fault_span(t, LexerError::UnterminatedQuote)),
                        ] + scan_toks(toks, i + 1, stack_br@).errs) =~= errors@ + scan_toks(
                            toks,
                            i + 1,
                            stack_br@,
                        ).errs);
                    }
                },
                _ => {
                    if building {
                        current.push(Tree::Token(t.note));
                        proof {
                            lemma_flat_state_push(stack_br@, stack_trees@, cur0, Tree::Token(t.note));
                            assert(flat_state(stack_br@, stack_trees@, current@) =~= flat_state(
                                brs0,
                                lay0,
                                cur0,
                            ) + seq![t.note]);
                            lemma_forest_view_push(cur0, Tree::Token(t.note));
                            lemma_leaves_plain_push(
                                forest_view(cur0),
                                tree_view(Tree::Token(t.note)),
                            );
                        }
                    }
                },
            }
            i = i + 1;
        }
        proof {
            if errors@.len() == 0 {
                assert(!aborted);
                assert(toks.take(n as int) =~= toks);
            }
            if !aborted {
                assert(scan_toks(toks, n as int, stack_br@).errs =~= Seq::<TreeError>::empty());
                assert(full.errs =~= errors@);
            }
            assert(lex_errors(toks) =~= errors@ + drain(stack_br@));
        }
        loop
            invariant_except_break
                toks == tokens@,
                lex_errors(toks) == errors@ + drain(stack_br@),
                aborted ==> errors@.len() > 0,
                errors@.len() == 0 ==> stack_br@.len() == stack_trees@.len(),
                errors@.len() == 0 ==> flat_state(stack_br@, stack_trees@, current@)
                    == token_kinds(toks),
                errors@.len() == 0 ==> forest_leaves_plain(forest_view(current@)),
            ensures
                errors@ == lex_errors(toks),
                stack_br@.len() == 0,
                errors@.len() == 0 ==> flat_state(stack_br@, stack_trees@, current@)
                    == token_kinds(toks),
                errors@.len() == 0 ==> forest_leaves_plain(forest_view(current@)),
            decreases stack_br@.len(),
        {
            let ghost brs0 = stack_br@;
            match stack_br.pop() {
                Some(sp) => {
                    errors.push(TreeError::Tree(BracketError::Unmatched(sp)));
                    proof {
                        assert(stack_br@ =~= brs0.drop_last());
                        assert(sp == brs0.last());
                        assert(errors@ + drain(stack_br@) =~= (errors@.drop_last() + (seq![
                            TreeError::Tree(BracketError::Unmatched(brs0.last())),
                        ] + drain(brs0.drop_last()))));
                        assert(errors@.drop_last() + (seq![
                            TreeError::Tree(BracketError::Unmatched(brs0.last())),
                        ] + drain(brs0.drop_last())) =~= errors@.drop_last() + drain(brs0));
                    }
                },
                None => {
                    proof {
                        assert(drain(stack_br@) =~= Seq::<TreeError>::empty());
                        assert(errors@ =~= errors@ + drain(stack_br@));
                    }
                    break ;
                },
            }
        }
        if errors.len() == 0 {
            proof {
                assert(flat_state(stack_br@, stack_trees@, current@) == flatten_forest(
                    forest_view(current@),
                ));
                assert(lex_errors(toks) =~= Seq::<TreeError>::empty());
            }
            Ok(current)
        } else {
            Err(errors)
        }
    }
}
} // verus!
