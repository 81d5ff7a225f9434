//! Statements.

use crate::common::expr::Expr;
use crate::common::func::Signature;
use crate::common::ident::Ident;
use crate::common::span::Spanned;
use crate::common::typed_ident::TypedIdent;
use vstd::prelude::*;

verus! {

/// A statement over scopes of type `Sc`.
#[derive(Debug, PartialEq, Eq)]
#[allow(inconsistent_fields)]
pub enum Stmt<Sc> {
    /// A declaration, with or without a first value.
    Create { ty_id: Spanned<TypedIdent>, mutable: bool, value: Option<Spanned<Expr<Sc>>> },
    /// An assignment to a binding that exists.
    Assign { id: Spanned<Ident>, value: Spanned<Expr<Sc>> },
    /// A function; without a body it is only declared.
    Func { id: Spanned<Ident>, signature: Signature, body: Option<Spanned<Sc>> },
    /// The result of a block (`yield`) or of a function (`return`).
    Return { value: Spanned<Expr<Sc>>, is_yield: bool },
}

/// The kinds of statement that diagnostics name.
#[derive(Debug, Clone, Copy, PartialEq, Eq, Hash, Structural)]
pub enum StmtVariant {
    Declare,
    Create,
    Assign,
    Function,
    Yield,
    Return,
}

impl StmtVariant {
    /// How messages name the kind.
    pub open spec fn text_spec(self) -> Seq<char> {
        match self {
            StmtVariant::Declare => "declare"@,
            StmtVariant::Create => "create"@,
            StmtVariant::Assign => "set"@,
            StmtVariant::Function => "function"@,
            StmtVariant::Yield => "yield"@,
            StmtVariant::Return => "return"@,
        }
    }

    /// How messages name the kind.
    pub fn text(&self) -> (s: &'static str)
        ensures
            s@ == self.text_spec(),
    {
        match self {
            StmtVariant::Declare => "declare",
            StmtVariant::Create => "create",
            StmtVariant::Assign => "set",
            StmtVariant::Function => "function",
            StmtVariant::Yield => "yield",
            StmtVariant::Return => "return",
        }
    }
}

impl<Sc> Stmt<Sc> {
    /// The kind of the statement.
    pub open spec fn variant_spec(&self) -> StmtVariant {
        match self {
            Stmt::Create { value, .. } => if value is Some {
                StmtVariant::Create
            } else {
                StmtVariant::Declare
            },
            Stmt::Assign { .. } => StmtVariant::Assign,
            Stmt::Func { .. } => StmtVariant::Function,
            Stmt::Return { is_yield, .. } => if *is_yield {
                StmtVariant::Yield
            } else {
                StmtVariant::Return
            },
        }
    }

    /// The kind of the statement.
    pub fn variant(&self) -> (v: StmtVariant)
        ensures
            v == self.variant_spec(),
    {
        match self {
            Stmt::Create { value, .. } => if value.is_some() {
                StmtVariant::Create
            } else {
                StmtVariant::Declare
            },
            Stmt::Assign { .. } => StmtVariant::Assign,
            Stmt::Func { .. } => StmtVariant::Function,
            Stmt::Return { is_yield, .. } => if *is_yield {
                StmtVariant::Yield
            } else {
                StmtVariant::Return
            },
        }
    }
}

} // verus!
