//! Which statements may stand where.

use crate::common::diagnostics::{invalid_stmt, invalid_stmt_diagnostic, Diagnostics};
use crate::common::span::Spanned;
use crate::common::stmt::{Stmt, StmtVariant};
use vstd::prelude::*;

verus! {

/// Where a statement stands.
#[derive(Debug, Clone, Copy, PartialEq, Eq, Hash, Structural)]
pub enum Context {
    TopLevel,
    Func,
}

impl Context {
    /// How messages name the context.
    pub open spec fn text_spec(self) -> Seq<char> {
        match self {
            Context::TopLevel => "top level"@,
            Context::Func => "function"@,
        }
    }

    /// How messages name the context.
    pub fn text(&self) -> (s: &'static str)
        ensures
            s@ == self.text_spec(),
    {
        match self {
            Context::TopLevel => "top level",
            Context::Func => "function",
        }
    }

    /// The name of the context, as a string of its own.
    pub fn to_string(&self) -> (s: String)
        ensures
            s@ == self.text_spec(),
    {
        self.text().to_owned()
    }
}

/// Whether a statement of kind `variant` may stand in `context`: a function
/// anywhere, everything else inside a function only.
pub open spec fn allowed(variant: StmtVariant, context: Context) -> bool {
    variant == StmtVariant::Function || context == Context::Func
}

/// Reports `stmt` if it may not stand in `context`.
pub fn check_stmt<Sc>(stmt: &Spanned<Stmt<Sc>>, context: Context, sink: &mut Diagnostics)
    ensures
        final(sink)@ == if allowed(stmt.value.variant_spec(), context) {
            old(sink)@
        } else {
            old(sink)@.push(invalid_stmt_diagnostic(stmt.span, stmt.value.variant_spec(), context))
        },
{
    let ok = match &stmt.value {
        Stmt::Func { .. } => true,
        _ => match context {
            Context::Func => true,
            Context::TopLevel => false,
        },
    };
    if !ok {
        invalid_stmt(sink, stmt, context);
    }
}

} // verus!
