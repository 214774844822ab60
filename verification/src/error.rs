//! The parse-error model. A failed parse step always yields a non-empty,
//! ordered list of errors, never a single one: that is what lets one pass
//! report every independent fault it touches.

use vstd::prelude::*;

use crate::span::Span;
use crate::token::TokenKind;

verus! {

/// The kinds of parse error.
#[derive(Debug, PartialEq, Eq)]
pub enum ErrorType {
    UnterminatedQuote,
    UnknownToken,
    SuddenEof,
    NonExprOperand,
    NonPlace,
    /// None of the listed token kinds stood at the spanned spot.
    NoExpectation(Vec<TokenKind>),
    NonIndexNorSlice,
}

/// A parse error: a kind at a span of the source.
pub type Error = Span<ErrorType>;

/// The mathematical shape of an error kind, expected kinds as a sequence.
pub enum ErrorTypeV {
    UnterminatedQuote,
    UnknownToken,
    SuddenEof,
    NonExprOperand,
    NonPlace,
    NoExpectation(Seq<TokenKind>),
    NonIndexNorSlice,
}

/// The mathematical shape of an error kind.
pub open spec fn error_type_view(e: ErrorType) -> ErrorTypeV {
    match e {
        ErrorType::UnterminatedQuote => ErrorTypeV::UnterminatedQuote,
        ErrorType::UnknownToken => ErrorTypeV::UnknownToken,
        ErrorType::SuddenEof => ErrorTypeV::SuddenEof,
        ErrorType::NonExprOperand => ErrorTypeV::NonExprOperand,
        ErrorType::NonPlace => ErrorTypeV::NonPlace,
        ErrorType::NoExpectation(kinds) => ErrorTypeV::NoExpectation(kinds@),
        ErrorType::NonIndexNorSlice => ErrorTypeV::NonIndexNorSlice,
    }
}

/// The mathematical shape of one error.
pub open spec fn error_view(e: Error) -> Span<ErrorTypeV> {
    Span { note: error_type_view(e.note), from: e.from, to: e.to }
}

/// The mathematical shape of an error list.
pub open spec fn errors_view(es: Seq<Error>) -> Seq<Span<ErrorTypeV>> {
    es.map_values(|e: Error| error_view(e))
}

/// Error lists concatenate under the view.
pub proof fn lemma_errors_view_add(a: Seq<Error>, b: Seq<Error>)
    ensures
        errors_view(a + b) == errors_view(a) + errors_view(b),
{
    assert(errors_view(a + b) =~= errors_view(a) + errors_view(b));
}

/// Combine two fallible sub-parses without short-circuiting: when both
/// succeed their results pair up, and otherwise every error of both sides
/// survives, the left side's first.
pub fn aggregate_error<T, U, E>(left: Result<T, Vec<E>>, right: Result<U, Vec<E>>) -> (r: Result<
    (T, U),
    Vec<E>,
>)
    ensures
        left is Ok && right is Ok ==> (r matches Ok(p) && p.0 == left->Ok_0 && p.1
            == right->Ok_0),
        left is Err && right is Ok ==> (r matches Err(e) && e == left->Err_0),
        left is Ok && right is Err ==> (r matches Err(e) && e == right->Err_0),
        left is Err && right is Err ==> (r matches Err(e) && e@ == left->Err_0@ + right->Err_0@),
{
    match (left, right) {
        (Ok(l), Ok(rt)) => Ok((l, rt)),
        (Err(mut l), Err(mut rt)) => {
            l.append(&mut rt);
            Err(l)
        },
        (Err(e), Ok(_)) => Err(e),
        (Ok(_), Err(e)) => Err(e),
    }
}

} // verus!
