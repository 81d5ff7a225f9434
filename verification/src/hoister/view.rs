//! The views of hoisted trees.

use crate::common::expr::Expr;
use crate::common::func::spanned_types_view;
use crate::common::ident::{Ident, IdentView};
use crate::common::span::Spanned;
use crate::common::stmt::Stmt;
use crate::common::view::{ExprView, FuncView, ScopeView, StmtView};
use crate::hoister::{HoistedExpr, HoistedFunc, HoistedScope, HoistedStmt, Var, VarView};
use vstd::prelude::*;

verus! {

/// The views of expressions, one by one.
pub open spec fn exprs_view(es: Seq<Spanned<HoistedExpr>>) -> Seq<Spanned<ExprView>>
    decreases es,
{
    if es.len() == 0 {
        Seq::empty()
    } else {
        exprs_view(es.drop_last()).push(sexpr_view(es.last()))
    }
}

/// The view of an expression with its span.
pub open spec fn sexpr_view(e: Spanned<HoistedExpr>) -> Spanned<ExprView>
    decreases e,
{
    Spanned { span: e.span, value: expr_view(e.value) }
}

/// The view of an expression.
pub open spec fn expr_view(e: HoistedExpr) -> ExprView
    decreases e,
{
    match e {
        Expr::NumberLiteral(n) => ExprView::NumberLiteral(n@),
        Expr::Identifier(i) => ExprView::Identifier(i@),
        Expr::BinaryOp(l, op, r) => ExprView::BinaryOp(
            Box::new(sexpr_view(*l)),
            op,
            Box::new(sexpr_view(*r)),
        ),
        Expr::UnaryOp(op, v) => ExprView::UnaryOp(op, Box::new(sexpr_view(*v))),
        Expr::Scope(s) => ExprView::Scope(scope_view(s)),
        Expr::Call { callee, generics, args } => ExprView::Call {
            callee: Box::new(sexpr_view(*callee)),
            generics: match generics {
                Some(g) => Some(spanned_types_view(g@)),
                None => None,
            },
            args: exprs_view(args@),
        },
    }
}

/// The view of the body of a function.
pub open spec fn body_view(body: Option<Spanned<HoistedScope>>) -> Option<Spanned<ScopeView>>
    decreases body,
{
    match body {
        Some(b) => Some(Spanned { span: b.span, value: scope_view(b.value) }),
        None => None,
    }
}

/// The view of a statement with its span.
pub open spec fn stmt_view(s: Spanned<HoistedStmt>) -> Spanned<StmtView>
    decreases s,
{
    Spanned {
        span: s.span,
        value: match s.value {
            Stmt::Create { ty_id, mutable, value } => StmtView::Create {
                ty_id: Spanned { span: ty_id.span, value: ty_id.value@ },
                mutable,
                value: match value {
                    Some(v) => Some(sexpr_view(v)),
                    None => None,
                },
            },
            Stmt::Assign { id, value } => StmtView::Assign {
                id: Spanned { span: id.span, value: id.value@ },
                value: sexpr_view(value),
            },
            Stmt::Func { id, signature, body } => StmtView::Func {
                id: Spanned { span: id.span, value: id.value@ },
                signature: signature@,
                body: body_view(body),
            },
            Stmt::Return { value, is_yield } => StmtView::Return {
                value: sexpr_view(value),
                is_yield,
            },
        },
    }
}

/// The views of statements, one by one.
pub open spec fn stmts_view(ss: Seq<Spanned<HoistedStmt>>) -> Seq<Spanned<StmtView>>
    decreases ss,
{
    if ss.len() == 0 {
        Seq::empty()
    } else {
        stmts_view(ss.drop_last()).push(stmt_view(ss.last()))
    }
}

/// The view of a function of a table.
pub open spec fn func_view(f: HoistedFunc) -> FuncView
    decreases f,
{
    FuncView {
        id: Spanned { span: f.id.span, value: f.id.value@ },
        signature: f.signature@,
        body: body_view(f.body),
    }
}

/// The views of the functions of a table, entry by entry.
pub open spec fn funcs_view(fs: Seq<(Ident, Spanned<HoistedFunc>)>) -> Seq<
    (IdentView, Spanned<FuncView>),
>
    decreases fs,
{
    if fs.len() == 0 {
        Seq::empty()
    } else {
        funcs_view(fs.drop_last()).push(
            (fs.last().0@, Spanned { span: fs.last().1.span, value: func_view(fs.last().1.value) }),
        )
    }
}

/// The variables that the statements declare, in order: name, type,
/// mutability, and the span of the statement.
pub open spec fn created(stmts: Seq<Spanned<HoistedStmt>>) -> Seq<(IdentView, Spanned<VarView>)>
    decreases stmts.len(),
{
    if stmts.len() == 0 {
        Seq::empty()
    } else {
        let rest = created(stmts.drop_last());
        match stmts.last().value {
            Stmt::Create { ty_id, mutable, .. } => rest.push(
                (
                    ty_id.value.ident.value@,
                    Spanned {
                        span: stmts.last().span,
                        value: VarView { ty: ty_id.value.ty.value@, mutable },
                    },
                ),
            ),
            _ => rest,
        }
    }
}

/// The entries of a table of variables as specification values.
pub open spec fn vars_table_view(entries: Seq<(Ident, Spanned<Var>)>) -> Seq<
    (IdentView, Spanned<VarView>),
> {
    Seq::new(
        entries.len(),
        |i: int| (entries[i].0@, Spanned { span: entries[i].1.span, value: entries[i].1.value@ }),
    )
}

/// The view of a scope.
pub open spec fn scope_view(s: HoistedScope) -> ScopeView
    decreases s,
{
    ScopeView {
        stmts: stmts_view(s.stmts@),
        vars: vars_table_view(s.data.vars@),
        funcs: funcs_view(s.data.funcs@),
    }
}

impl View for HoistedScope {
    type V = ScopeView;

    open spec fn view(&self) -> ScopeView {
        scope_view(*self)
    }
}

/// The views of expressions with one more are the views with one more.
pub proof fn lemma_exprs_view_push(es: Seq<Spanned<HoistedExpr>>, e: Spanned<HoistedExpr>)
    ensures
        exprs_view(es.push(e)) == exprs_view(es).push(sexpr_view(e)),
{
    assert(es.push(e).drop_last() =~= es);
}

/// The views of statements with one more are the views with one more.
pub proof fn lemma_stmts_view_push(ss: Seq<Spanned<HoistedStmt>>, s: Spanned<HoistedStmt>)
    ensures
        stmts_view(ss.push(s)) == stmts_view(ss).push(stmt_view(s)),
{
    assert(ss.push(s).drop_last() =~= ss);
}

/// The views of functions with one more are the views with one more.
pub proof fn lemma_funcs_view_push(
    fs: Seq<(Ident, Spanned<HoistedFunc>)>,
    f: (Ident, Spanned<HoistedFunc>),
)
    ensures
        funcs_view(fs.push(f)) == funcs_view(fs).push(
            (f.0@, Spanned { span: f.1.span, value: func_view(f.1.value) }),
        ),
{
    assert(fs.push(f).drop_last() =~= fs);
}

/// The variables that the views of statements declare are the variables
/// that the statements declare.
pub proof fn lemma_created_view(ss: Seq<Spanned<HoistedStmt>>)
    ensures
        crate::common::view::created_view(stmts_view(ss)) == created(ss),
    decreases ss.len(),
{
    if ss.len() > 0 {
        lemma_created_view(ss.drop_last());
        assert(stmts_view(ss).drop_last() =~= stmts_view(ss.drop_last()));
        assert(stmts_view(ss).last() == stmt_view(ss.last()));
        match ss.last().value {
            Stmt::Create { .. } => {},
            Stmt::Assign { .. } => {},
            Stmt::Func { .. } => {},
            Stmt::Return { .. } => {},
        }
    } else {
        assert(stmts_view(ss) =~= Seq::empty());
    }
}

} // verus!
