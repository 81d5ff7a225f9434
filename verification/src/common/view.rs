//! What programs stand for in specifications: trees of mathematical
//! values, the same for a program before and after hoisting.

use crate::common::func::SignatureView;
use crate::common::ident::IdentView;
use crate::common::span::Spanned;
use crate::common::typed_ident::TypedIdentView;
use crate::common::types::TypeView;
use crate::hoister::VarView;
use crate::lexer::{NumberLiteralView, Operator};
use vstd::prelude::*;

verus! {

/// What an expression stands for.
pub ghost enum ExprView {
    NumberLiteral(NumberLiteralView),
    Identifier(IdentView),
    BinaryOp(Box<Spanned<ExprView>>, Spanned<Operator>, Box<Spanned<ExprView>>),
    UnaryOp(Spanned<Operator>, Box<Spanned<ExprView>>),
    Scope(ScopeView),
    Call {
        callee: Box<Spanned<ExprView>>,
        generics: Option<Seq<Spanned<TypeView>>>,
        args: Seq<Spanned<ExprView>>,
    },
}

/// What a statement stands for.
#[allow(inconsistent_fields)]
pub ghost enum StmtView {
    Create { ty_id: Spanned<TypedIdentView>, mutable: bool, value: Option<Spanned<ExprView>> },
    Assign { id: Spanned<IdentView>, value: Spanned<ExprView> },
    Func { id: Spanned<IdentView>, signature: SignatureView, body: Option<Spanned<ScopeView>> },
    Return { value: Spanned<ExprView>, is_yield: bool },
}

/// What a function of a table stands for.
pub ghost struct FuncView {
    pub id: Spanned<IdentView>,
    pub signature: SignatureView,
    pub body: Option<Spanned<ScopeView>>,
}

/// What a scope stands for: its statements and, after hoisting, the
/// entries of its tables in their order.
pub ghost struct ScopeView {
    pub stmts: Seq<Spanned<StmtView>>,
    pub vars: Seq<(IdentView, Spanned<VarView>)>,
    pub funcs: Seq<(IdentView, Spanned<FuncView>)>,
}

/// The variables that statements declare, in order: name, type,
/// mutability, and the span of the statement.
pub open spec fn created_view(stmts: Seq<Spanned<StmtView>>) -> Seq<(IdentView, Spanned<VarView>)>
    decreases stmts.len(),
{
    if stmts.len() == 0 {
        Seq::empty()
    } else {
        let rest = created_view(stmts.drop_last());
        match stmts.last().value {
            StmtView::Create { ty_id, mutable, .. } => rest.push(
                (
                    ty_id.value.ident.value,
                    Spanned {
                        span: stmts.last().span,
                        value: VarView { ty: ty_id.value.ty.value, mutable },
                    },
                ),
            ),
            _ => rest,
        }
    }
}

} // verus!
