//! The views of parsed trees.

use crate::common::expr::Expr;
use crate::common::func::spanned_types_view;
use crate::common::ident::{Ident, IdentView};
use crate::common::span::Spanned;
use crate::common::stmt::Stmt;
use crate::common::typed_ident::{TypedIdent, TypedIdentView};
use crate::common::types::{Type, TypeView};
use crate::common::view::{ExprView, ScopeView, StmtView};
use crate::parser::types::{ParserExpr, ParserScope, ParserStmt};
use vstd::prelude::*;

verus! {

/// The view of a type with its span.
pub open spec fn stype_view(t: Spanned<Type>) -> Spanned<TypeView> {
    Spanned { span: t.span, value: t.value@ }
}

/// The view of a name with its span.
pub open spec fn sident_view(i: Spanned<Ident>) -> Spanned<IdentView> {
    Spanned { span: i.span, value: i.value@ }
}

/// The view of a typed name with its span.
pub open spec fn styped_view(t: Spanned<TypedIdent>) -> Spanned<TypedIdentView> {
    Spanned { span: t.span, value: t.value@ }
}

/// The views of expressions, one by one.
pub open spec fn exprs_view(es: Seq<Spanned<ParserExpr>>) -> Seq<Spanned<ExprView>>
    decreases es,
{
    if es.len() == 0 {
        Seq::empty()
    } else {
        exprs_view(es.drop_last()).push(sexpr_view(es.last()))
    }
}

/// The view of an expression with its span.
pub open spec fn sexpr_view(e: Spanned<ParserExpr>) -> Spanned<ExprView>
    decreases e,
{
    Spanned { span: e.span, value: expr_view(e.value) }
}

/// The view of an expression.
pub open spec fn expr_view(e: ParserExpr) -> ExprView
    decreases e,
{
    match e {
        Expr::NumberLiteral(n) => ExprView::NumberLiteral(n@),
        Expr::Identifier(i) => ExprView::Identifier(i@),
        Expr::BinaryOp(l, op, r) => ExprView::BinaryOp(
            Box::new(sexpr_view(*l)),
            op,
            Box::new(sexpr_view(*r)),
        ),
        Expr::UnaryOp(op, v) => ExprView::UnaryOp(op, Box::new(sexpr_view(*v))),
        Expr::Scope(s) => ExprView::Scope(scope_view(s)),
        Expr::Call { callee, generics, args } => ExprView::Call {
            callee: Box::new(sexpr_view(*callee)),
            generics: match generics {
                Some(g) => Some(spanned_types_view(g@)),
                None => None,
            },
            args: exprs_view(args@),
        },
    }
}

/// The view of a scope with its span.
pub open spec fn sscope_view(b: Spanned<ParserScope>) -> Spanned<ScopeView>
    decreases b,
{
    Spanned { span: b.span, value: scope_view(b.value) }
}

/// The view of the body of a function.
pub open spec fn body_view(body: Option<Spanned<ParserScope>>) -> Option<Spanned<ScopeView>>
    decreases body,
{
    match body {
        Some(b) => Some(sscope_view(b)),
        None => None,
    }
}

/// The view of a statement with its span.
pub open spec fn stmt_view(s: Spanned<ParserStmt>) -> Spanned<StmtView>
    decreases s,
{
    Spanned {
        span: s.span,
        value: match s.value {
            Stmt::Create { ty_id, mutable, value } => StmtView::Create {
                ty_id: styped_view(ty_id),
                mutable,
                value: match value {
                    Some(v) => Some(sexpr_view(v)),
                    None => None,
                },
            },
            Stmt::Assign { id, value } => StmtView::Assign {
                id: sident_view(id),
                value: sexpr_view(value),
            },
            Stmt::Func { id, signature, body } => StmtView::Func {
                id: sident_view(id),
                signature: signature@,
                body: body_view(body),
            },
            Stmt::Return { value, is_yield } => StmtView::Return {
                value: sexpr_view(value),
                is_yield,
            },
        },
    }
}

/// The views of statements, one by one.
pub open spec fn stmts_view(ss: Seq<Spanned<ParserStmt>>) -> Seq<Spanned<StmtView>>
    decreases ss,
{
    if ss.len() == 0 {
        Seq::empty()
    } else {
        stmts_view(ss.drop_last()).push(stmt_view(ss.last()))
    }
}

/// A scope of these statements, with empty tables.
pub open spec fn plain_scope(stmts: Seq<Spanned<StmtView>>) -> ScopeView {
    ScopeView { stmts, vars: Seq::empty(), funcs: Seq::empty() }
}

/// The view of a scope: its statements, and empty tables.
pub open spec fn scope_view(s: ParserScope) -> ScopeView
    decreases s,
{
    plain_scope(stmts_view(s.stmts@))
}

impl View for ParserScope {
    type V = ScopeView;

    open spec fn view(&self) -> ScopeView {
        scope_view(*self)
    }
}

/// The view of a type that may be missing.
pub open spec fn type_found(t: Option<Spanned<Type>>) -> Option<Spanned<TypeView>> {
    match t {
        Some(t) => Some(stype_view(t)),
        None => None,
    }
}

/// The view of a name that may be missing.
pub open spec fn ident_found(i: Option<Spanned<Ident>>) -> Option<Spanned<IdentView>> {
    match i {
        Some(i) => Some(sident_view(i)),
        None => None,
    }
}

/// The view of a typed name that may be missing.
pub open spec fn typed_found(t: Option<Spanned<TypedIdent>>) -> Option<Spanned<TypedIdentView>> {
    match t {
        Some(t) => Some(styped_view(t)),
        None => None,
    }
}

/// The view of an expression that may be missing.
pub open spec fn expr_found(e: Option<Spanned<ParserExpr>>) -> Option<Spanned<ExprView>> {
    match e {
        Some(e) => Some(sexpr_view(e)),
        None => None,
    }
}

/// The view of a statement that may be missing.
pub open spec fn stmt_found(s: Option<Spanned<ParserStmt>>) -> Option<Spanned<StmtView>> {
    match s {
        Some(s) => Some(stmt_view(s)),
        None => None,
    }
}

/// The view of a scope that may be missing.
pub open spec fn scope_found(b: Option<Spanned<ParserScope>>) -> Option<Spanned<ScopeView>> {
    body_view(b)
}

/// The views of expressions with one more are the views with one more.
pub proof fn lemma_exprs_view_push(es: Seq<Spanned<ParserExpr>>, e: Spanned<ParserExpr>)
    ensures
        exprs_view(es.push(e)) == exprs_view(es).push(sexpr_view(e)),
{
    assert(es.push(e).drop_last() =~= es);
}

/// The views of statements with one more are the views with one more.
pub proof fn lemma_stmts_view_push(ss: Seq<Spanned<ParserStmt>>, s: Spanned<ParserStmt>)
    ensures
        stmts_view(ss.push(s)) == stmts_view(ss).push(stmt_view(s)),
{
    assert(ss.push(s).drop_last() =~= ss);
}

} // verus!
