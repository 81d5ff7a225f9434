//! What every kind of scope offers.

use crate::common::span::Spanned;
use crate::common::stmt::Stmt;
use vstd::prelude::*;

verus! {

/// An ordered sequence of statements.
pub trait Scope: Sized {
    /// The statements as a specification value.
    spec fn stmts_spec(&self) -> Seq<Spanned<Stmt<Self>>>;

    /// The statements, in the order of the source text.
    fn stmts(&self) -> (stmts: &Vec<Spanned<Stmt<Self>>>)
        ensures
            stmts@ == self.stmts_spec(),
    ;
}

} // verus!
