//! The tree the parser builds.

use crate::common::expr::Expr;
use crate::common::scope::Scope;
use crate::common::span::Spanned;
use crate::common::stmt::Stmt;
use vstd::prelude::*;

verus! {

pub type ParserExpr = Expr<ParserScope>;

pub type ParserStmt = Stmt<ParserScope>;

/// A scope as the parser found it: statements only.
#[derive(Debug, PartialEq, Eq)]
pub struct ParserScope {
    pub stmts: Vec<Spanned<ParserStmt>>,
}

impl Scope for ParserScope {
    open spec fn stmts_spec(&self) -> Seq<Spanned<Stmt<Self>>> {
        self.stmts@
    }

    fn stmts(&self) -> (stmts: &Vec<Spanned<Stmt<Self>>>) {
        &self.stmts
    }
}

} // verus!

verus! {

/// A name as the parser leaves it: written out, or the wildcard.
pub open spec fn ident_plain(ident: crate::common::ident::Ident) -> bool {
    ident is Named || ident is Discarded
}

/// A type as the parser leaves it: built-in, to be inferred, or a name
/// written out.
pub open spec fn type_plain(ty: crate::common::types::Type) -> bool {
    match ty {
        crate::common::types::Type::User(i) => i is Named,
        crate::common::types::Type::Generic(..) => false,
        _ => true,
    }
}

/// A span that is not turned round and lies within `outer`.
pub open spec fn placed(span: crate::common::span::Span, outer: crate::common::span::Span) -> bool {
    span.start <= span.end && span.within(outer)
}

/// Each of the types lies within `outer`.
pub open spec fn stypes_spanned(
    types: Seq<Spanned<crate::common::types::Type>>,
    outer: crate::common::span::Span,
) -> bool
    decreases types.len(),
{
    types.len() == 0 || (placed(types.last().span, outer) && type_plain(types.last().value)
        && stypes_spanned(types.drop_last(), outer))
}

/// The span of every node of the expression lies within the span of the
/// node it is part of, and its names are plain.
pub open spec fn expr_spanned(e: Spanned<ParserExpr>) -> bool
    decreases e,
{
    e.span.start <= e.span.end && match e.value {
        Expr::NumberLiteral(_) => true,
        Expr::Identifier(i) => ident_plain(i),
        Expr::BinaryOp(l, op, r) => placed(l.span, e.span) && placed(op.span, e.span) && placed(
            r.span,
            e.span,
        ) && expr_spanned(*l) && expr_spanned(*r),
        Expr::UnaryOp(op, v) => placed(op.span, e.span) && placed(v.span, e.span) && expr_spanned(
            *v,
        ),
        Expr::Scope(s) => stmts_spanned(s.stmts@, e.span),
        Expr::Call { callee, generics, args } => placed(callee.span, e.span) && expr_spanned(
            *callee,
        ) && (match generics {
            Some(g) => stypes_spanned(g@, e.span),
            None => true,
        }) && exprs_spanned(args@, e.span),
    }
}

/// Each of the expressions lies within `outer`, and [`expr_spanned`]
/// holds of it.
pub open spec fn exprs_spanned(es: Seq<Spanned<ParserExpr>>, outer: crate::common::span::Span)
    -> bool
    decreases es,
{
    es.len() == 0 || (placed(es.last().span, outer) && expr_spanned(es.last()) && exprs_spanned(
        es.drop_last(),
        outer,
    ))
}

/// The type and the name of a declaration lie within its span and are
/// plain.
pub open spec fn typed_ident_spanned(t: Spanned<crate::common::typed_ident::TypedIdent>) -> bool {
    &&& t.span.start <= t.span.end
    &&& placed(t.value.ty.span, t.span)
    &&& placed(t.value.ident.span, t.span)
    &&& type_plain(t.value.ty.value)
    &&& ident_plain(t.value.ident.value)
}

/// Each of the declarations lies within `outer`, and
/// [`typed_ident_spanned`] holds of it.
pub open spec fn typed_idents_spanned(
    ts: Seq<Spanned<crate::common::typed_ident::TypedIdent>>,
    outer: crate::common::span::Span,
) -> bool
    decreases ts.len(),
{
    ts.len() == 0 || (placed(ts.last().span, outer) && typed_ident_spanned(ts.last())
        && typed_idents_spanned(ts.drop_last(), outer))
}

/// Each of the names lies within `outer` and is plain.
pub open spec fn idents_spanned(
    ids: Seq<Spanned<crate::common::ident::Ident>>,
    outer: crate::common::span::Span,
) -> bool
    decreases ids.len(),
{
    ids.len() == 0 || (placed(ids.last().span, outer) && ident_plain(ids.last().value)
        && idents_spanned(ids.drop_last(), outer))
}

/// The parts of the signature lie within `outer`, and the arguments and
/// generic parameters within their lists.
pub open spec fn signature_spanned(
    sig: crate::common::func::Signature,
    outer: crate::common::span::Span,
) -> bool {
    &&& placed(sig.attribs.span, outer)
    &&& placed(sig.linkage.span, outer)
    &&& placed(sig.return_ty.span, outer)
    &&& type_plain(sig.return_ty.value)
    &&& placed(sig.args.span, outer)
    &&& typed_idents_spanned(sig.args.value@, sig.args.span)
    &&& placed(sig.generics.span, outer)
    &&& idents_spanned(sig.generics.value@, sig.generics.span)
}

/// The span of every node of the statement lies within the span of the
/// node it is part of, and its names are plain.
pub open spec fn stmt_spanned(s: Spanned<ParserStmt>) -> bool
    decreases s,
{
    s.span.start <= s.span.end && match s.value {
        Stmt::Create { ty_id, mutable, value } => placed(ty_id.span, s.span)
            && typed_ident_spanned(ty_id) && (match value {
            Some(v) => placed(v.span, s.span) && expr_spanned(v),
            None => true,
        }),
        Stmt::Assign { id, value } => placed(id.span, s.span) && ident_plain(id.value) && placed(
            value.span,
            s.span,
        ) && expr_spanned(value),
        Stmt::Func { id, signature, body } => placed(id.span, s.span) && ident_plain(id.value)
            && signature_spanned(signature, s.span) && (match body {
            Some(b) => placed(b.span, s.span) && stmts_spanned(b.value.stmts@, b.span),
            None => true,
        }),
        Stmt::Return { value, is_yield } => placed(value.span, s.span) && expr_spanned(value),
    }
}

/// Each of the statements lies within `outer`, and [`stmt_spanned`] holds
/// of it.
pub open spec fn stmts_spanned(ss: Seq<Spanned<ParserStmt>>, outer: crate::common::span::Span)
    -> bool
    decreases ss,
{
    ss.len() == 0 || (placed(ss.last().span, outer) && stmt_spanned(ss.last()) && stmts_spanned(
        ss.drop_last(),
        outer,
    ))
}

/// What lies within a span lies within every span around it.
pub proof fn lemma_stmts_widen(
    ss: Seq<Spanned<ParserStmt>>,
    outer: crate::common::span::Span,
    wider: crate::common::span::Span,
)
    requires
        stmts_spanned(ss, outer),
        outer.within(wider),
    ensures
        stmts_spanned(ss, wider),
    decreases ss.len(),
{
    if ss.len() > 0 {
        lemma_stmts_widen(ss.drop_last(), outer, wider);
    }
}

/// What lies within a span lies within every span around it.
pub proof fn lemma_exprs_widen(
    es: Seq<Spanned<ParserExpr>>,
    outer: crate::common::span::Span,
    wider: crate::common::span::Span,
)
    requires
        exprs_spanned(es, outer),
        outer.within(wider),
    ensures
        exprs_spanned(es, wider),
    decreases es.len(),
{
    if es.len() > 0 {
        lemma_exprs_widen(es.drop_last(), outer, wider);
    }
}

/// What lies within a span lies within every span around it.
pub proof fn lemma_stypes_widen(
    ts: Seq<Spanned<crate::common::types::Type>>,
    outer: crate::common::span::Span,
    wider: crate::common::span::Span,
)
    requires
        stypes_spanned(ts, outer),
        outer.within(wider),
    ensures
        stypes_spanned(ts, wider),
    decreases ts.len(),
{
    if ts.len() > 0 {
        lemma_stypes_widen(ts.drop_last(), outer, wider);
    }
}

/// The whole program lies within `outer`, span within span, with plain
/// names.
pub open spec fn scope_spanned(scope: ParserScope, outer: crate::common::span::Span) -> bool {
    stmts_spanned(scope.stmts@, outer)
}

} // verus!
