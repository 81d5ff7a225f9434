//! Expressions.

use crate::common::ident::Ident;
use crate::common::span::Spanned;
use crate::common::types::Type;
use crate::lexer::{NumberLiteral, Operator};
use vstd::prelude::*;

verus! {

/// An expression over scopes of type `Sc`.
#[derive(Debug, PartialEq, Eq)]
pub enum Expr<Sc> {
    NumberLiteral(NumberLiteral),
    Identifier(Ident),
    BinaryOp(Box<Spanned<Expr<Sc>>>, Spanned<Operator>, Box<Spanned<Expr<Sc>>>),
    UnaryOp(Spanned<Operator>, Box<Spanned<Expr<Sc>>>),
    /// A block; its value is what it yields.
    Scope(Sc),
    Call {
        callee: Box<Spanned<Expr<Sc>>>,
        generics: Option<Vec<Spanned<Type>>>,
        args: Vec<Spanned<Expr<Sc>>>,
    },
}

} // verus!
