//! The vocabulary of the syntax tree: unary and binary operator kinds,
//! range shapes, and the tagged union of node kinds. Arity is implied by
//! the variant: a binary node has exactly two children, a property access
//! exactly one, and so on.

use vstd::prelude::*;

verus! {

/// Unary operator kinds.
#[derive(Clone, Copy, Debug, PartialEq, Eq, Structural)]
pub enum Unary {
    Plus,
    Minus,
    Ref,
    Not,
    Clone,
}

/// Binary operator kinds.
#[derive(Clone, Copy, Debug, PartialEq, Eq, Structural)]
pub enum Binary {
    Add,
    Sub,
    Multiply,
    Div,
    FloorDiv,
    Mod,
    And,
    Or,
    LazyAnd,
    LazyOr,
    Equal,
    NotEqual,
    Greater,
    GreaterEqual,
    Less,
    LessEqual,
    Concatenate,
    NullOr,
}

/// The nine range shapes: which bounds are present, and whether each
/// present bound is inclusive.
#[derive(Clone, Copy, Debug, PartialEq, Eq, Structural)]
pub enum RangeType {
    Full,
    Inclusive,
    Exclusive,
    InclusiveExclusive,
    ExclusiveInclusive,
    FromInclusive,
    FromExclusive,
    ToInclusive,
    ToExclusive,
}

/// The kinds of syntax-tree node.
#[derive(Clone, Copy, Debug, PartialEq, Eq, Structural)]
pub enum NodeType {
    Label,
    Field,
    Name,
    SplatOrRest,
    Ignore,
    True,
    False,
    Null,
    Ident,
    Char,
    Str,
    /// An integer-shaped numeric literal; its digits come from the span.
    UInt,
    /// Any other numeric literal; its text comes from the span.
    Float,
    Break,
    BreakWithExpr,
    Continue,
    Return,
    Unary(Unary),
    Binary(Binary),
    Declare,
    FunDeclare,
    Assign,
    Array,
    ArrayRange(RangeType),
    Struct,
    UnnamedArgs,
    Property,
    OptionalProperty,
    Index,
    OptionalIndex,
    Slice(RangeType),
    OptionalSlice(RangeType),
    Call,
    Block,
    BlockWithExpr,
    Fun,
    If,
    For,
    While,
    Loop,
}

impl NodeType {
    /// The forms valid as an assignment target: a variable, a property
    /// access, an indexing, or a reference.
    pub open spec fn spec_place(self) -> bool {
        match self {
            NodeType::Ident => true,
            NodeType::Property => true,
            NodeType::Index => true,
            NodeType::Unary(Unary::Ref) => true,
            _ => false,
        }
    }

    #[verifier::when_used_as_spec(spec_place)]
    pub fn place(self) -> (r: bool)
        ensures
            r == self.spec_place(),
    {
        matches!(
            self,
            NodeType::Ident | NodeType::Property | NodeType::Index | NodeType::Unary(Unary::Ref)
        )
    }

    /// The forms that denote a value, as opposed to statement-only forms
    /// such as declarations and jumps.
    pub open spec fn spec_expr(self) -> bool {
        match self {
            NodeType::Label => false,
            NodeType::Field => false,
            NodeType::Name => false,
            NodeType::SplatOrRest => false,
            NodeType::Ignore => false,
            NodeType::Break => false,
            NodeType::BreakWithExpr => false,
            NodeType::Continue => false,
            NodeType::Return => false,
            NodeType::Declare => false,
            NodeType::FunDeclare => false,
            _ => true,
        }
    }

    #[verifier::when_used_as_spec(spec_expr)]
    pub fn expr(self) -> (r: bool)
        ensures
            r == self.spec_expr(),
    {
        !(matches!(
            self,
            NodeType::Label
                | NodeType::Field
                | NodeType::Name
                | NodeType::SplatOrRest
                | NodeType::Ignore
                | NodeType::Break
                | NodeType::BreakWithExpr
                | NodeType::Continue
                | NodeType::Return
                | NodeType::Declare
                | NodeType::FunDeclare
        ))
    }
}

} // verus!
