//! What resolution computes, as functions of the program and of what is
//! known when it begins.

use crate::common::diagnostics::{
    discarded_ident_diagnostic, nonexistent_item_diagnostic, out_of_ids_diagnostic,
    type_mismatch_diagnostic, DiagnosticView,
};
use crate::common::expr::Expr;
use crate::common::func::{Signature, SignatureView};
use crate::common::ident::{ident_text, Id, Ident, IdentView};
use crate::common::span::{Span, Spanned};
use crate::common::stmt::Stmt;
use crate::common::typed_ident::{TypedIdent, TypedIdentView};
use crate::common::types::{Type, TypeView};
use crate::common::view::{created_view, ExprView, FuncView, ScopeView, StmtView};
use crate::hoister::{HoistedExpr, HoistedFunc, HoistedScope, HoistedScopeData, HoistedStmt, Var};
use crate::resolver::mappings::{paired, MapRepr};
use crate::resolver::relation::{role_allows, Role};
use vstd::prelude::*;

verus! {

/// What the resolver knows at one moment.
pub ghost struct RState {
    /// The name of each number in sight.
    pub names: Map<Id, IdentView>,
    /// The kind of every number given out.
    pub kinds: Map<Id, MapRepr>,
    /// The number given out last.
    pub counter: Id,
}

/// What one step of resolution gives: its result, what is known after it,
/// and what it reports.
pub ghost struct Step<T> {
    pub out: T,
    pub st: RState,
    pub reports: Seq<DiagnosticView>,
}

/// A step that changes nothing and reports nothing.
pub open spec fn quiet<T>(out: T, st: RState) -> Step<T> {
    Step { out, st, reports: Seq::empty() }
}

/// Whether `name` is in sight.
pub open spec fn knows(names: Map<Id, IdentView>, name: IdentView) -> bool {
    exists|k: Id| names.contains_key(k) && #[trigger] names[k] == name
}

/// The number of `name`, if it is in sight.
pub open spec fn number_of(names: Map<Id, IdentView>, name: IdentView) -> Id {
    choose|k: Id| names.contains_key(k) && #[trigger] names[k] == name
}

/// The kind a name must have to play the part `role`, as messages name
/// it.
pub open spec fn wanted_kind(role: Role) -> MapRepr {
    match role {
        Role::Value => MapRepr::Var,
        Role::Target => MapRepr::Var,
        Role::TypeName => MapRepr::Type,
        Role::Decl(k) => k,
    }
}

/// A use of `ident` in the part `role`: the number of the name if it is
/// in sight, else 0. A wildcard, a name that is not in sight and a name
/// of a kind that may not play the part are reported.
#[verifier::opaque]
pub open spec fn use_step(ident: Spanned<Ident>, role: Role, st: RState) -> Step<Spanned<IdentView>> {
    let name = ident.value@;
    let found = !(name is Discarded) && knows(st.names, name);
    let number = if found {
        number_of(st.names, name)
    } else {
        0
    };
    Step {
        out: Spanned { span: ident.span, value: IdentView::Resolved(number) },
        st,
        reports: if name is Discarded {
            seq![discarded_ident_diagnostic(ident.span)]
        } else if !found {
            seq![nonexistent_item_diagnostic(ident.span, ident_text(name))]
        } else if role_allows(role, st.kinds[number]) {
            Seq::empty()
        } else {
            seq![type_mismatch_diagnostic(ident.span, st.kinds[number], wanted_kind(role))]
        },
    }
}

/// A declaration of `ident` as a `kind`: the next number, under which the
/// name is in sight from now on. The wildcard declares nothing. If no
/// number is left, that is reported and the name becomes 0.
#[verifier::opaque]
pub open spec fn new_step(ident: Spanned<Ident>, kind: MapRepr, st: RState) -> Step<
    Spanned<IdentView>,
> {
    if ident.value@ is Discarded {
        quiet(Spanned { span: ident.span, value: IdentView::Discarded }, st)
    } else if st.counter < usize::MAX {
        let id = (st.counter + 1) as usize;
        quiet(
            Spanned { span: ident.span, value: IdentView::Resolved(id) },
            RState {
                names: paired(st.names, id, ident.value@),
                kinds: st.kinds.insert(id, kind),
                counter: id,
            },
        )
    } else {
        Step {
            out: Spanned { span: ident.span, value: IdentView::Resolved(0) },
            st,
            reports: seq![out_of_ids_diagnostic(ident.span)],
        }
    }
}

/// The names of a type that stands at `span`, resolved as uses of types.
#[verifier::opaque]
pub open spec fn type_step(ty: Type, span: Span, st: RState) -> Step<TypeView>
    decreases ty, 1nat,
{
    match ty {
        Type::User(name) => {
            let u = use_step(Spanned { span, value: name }, Role::TypeName, st);
            Step { out: TypeView::User(u.out.value), st, reports: u.reports }
        },
        Type::BuiltIn(b) => quiet(TypeView::BuiltIn(b), st),
        Type::Generic(base, args) => {
            let b = type_step(*base, span, st);
            let a = types_step(args@, span, st);
            Step {
                out: TypeView::Generic(Box::new(b.out), a.out),
                st,
                reports: b.reports + a.reports,
            }
        },
        Type::Inferred => quiet(TypeView::Inferred, st),
    }
}

/// [`type_step`] of each type, in order.
pub open spec fn types_step(args: Seq<Type>, span: Span, st: RState) -> Step<Seq<TypeView>>
    decreases args, 0nat,
{
    if args.len() == 0 {
        quiet(Seq::empty(), st)
    } else {
        let a = types_step(args.drop_last(), span, st);
        let b = type_step(args.last(), span, st);
        Step { out: a.out.push(b.out), st, reports: a.reports + b.reports }
    }
}

/// [`type_step`] of each type, at its own span, in order.
pub open spec fn stypes_step(types: Seq<Spanned<Type>>, st: RState) -> Step<Seq<Spanned<TypeView>>>
    decreases types.len(),
{
    if types.len() == 0 {
        quiet(Seq::empty(), st)
    } else {
        let a = stypes_step(types.drop_last(), st);
        let b = type_step(types.last().value, types.last().span, st);
        Step {
            out: a.out.push(Spanned { span: types.last().span, value: b.out }),
            st,
            reports: a.reports + b.reports,
        }
    }
}

/// A declaration: the type resolved, then the name declared as a
/// variable.
#[verifier::opaque]
pub open spec fn typed_ident_step(ti: Spanned<TypedIdent>, st: RState) -> Step<
    Spanned<TypedIdentView>,
> {
    let t = type_step(ti.value.ty.value, ti.value.ty.span, st);
    let n = new_step(ti.value.ident, MapRepr::Var, st);
    Step {
        out: Spanned {
            span: ti.span,
            value: TypedIdentView {
                ty: Spanned { span: ti.value.ty.span, value: t.out },
                ident: n.out,
            },
        },
        st: n.st,
        reports: t.reports + n.reports,
    }
}

/// The generic parameters declared as types, in order.
pub open spec fn generics_step(gs: Seq<Spanned<Ident>>, st: RState) -> Step<Seq<Spanned<IdentView>>>
    decreases gs.len(),
{
    if gs.len() == 0 {
        quiet(Seq::empty(), st)
    } else {
        let a = generics_step(gs.drop_last(), st);
        let b = new_step(gs.last(), MapRepr::Type, a.st);
        Step { out: a.out.push(b.out), st: b.st, reports: a.reports + b.reports }
    }
}

/// The arguments declared, in order.
pub open spec fn params_step(ps: Seq<Spanned<TypedIdent>>, st: RState) -> Step<
    Seq<Spanned<TypedIdentView>>,
>
    decreases ps.len(),
{
    if ps.len() == 0 {
        quiet(Seq::empty(), st)
    } else {
        let a = params_step(ps.drop_last(), st);
        let b = typed_ident_step(ps.last(), a.st);
        Step { out: a.out.push(b.out), st: b.st, reports: a.reports + b.reports }
    }
}

/// A signature: the generic parameters, then the arguments, then the
/// return type.
#[verifier::opaque]
pub open spec fn signature_step(sig: Signature, st: RState) -> Step<SignatureView> {
    let g = generics_step(sig.generics.value@, st);
    let a = params_step(sig.args.value@, g.st);
    let r = type_step(sig.return_ty.value, sig.return_ty.span, a.st);
    Step {
        out: SignatureView {
            attribs: sig.attribs,
            linkage: sig.linkage,
            return_ty: Spanned { span: sig.return_ty.span, value: r.out },
            args: Spanned { span: sig.args.span, value: a.out },
            generics: Spanned { span: sig.generics.span, value: g.out },
        },
        st: a.st,
        reports: g.reports + a.reports + r.reports,
    }
}

/// An expression: every name in it a use of a value, from left to right.
pub open spec fn expr_step(e: Spanned<HoistedExpr>, st: RState) -> Step<Spanned<ExprView>>
    decreases e, 1nat,
{
    match e.value {
        Expr::NumberLiteral(n) => quiet(
            Spanned { span: e.span, value: ExprView::NumberLiteral(n@) },
            st,
        ),
        Expr::Identifier(x) => {
            let u = use_step(Spanned { span: e.span, value: x }, Role::Value, st);
            Step {
                out: Spanned { span: e.span, value: ExprView::Identifier(u.out.value) },
                st,
                reports: u.reports,
            }
        },
        Expr::BinaryOp(l, op, r) => {
            let a = expr_step(*l, st);
            let b = expr_step(*r, a.st);
            Step {
                out: Spanned {
                    span: e.span,
                    value: ExprView::BinaryOp(Box::new(a.out), op, Box::new(b.out)),
                },
                st: b.st,
                reports: a.reports + b.reports,
            }
        },
        Expr::UnaryOp(op, v) => {
            let a = expr_step(*v, st);
            Step {
                out: Spanned { span: e.span, value: ExprView::UnaryOp(op, Box::new(a.out)) },
                st: a.st,
                reports: a.reports,
            }
        },
        Expr::Scope(s) => {
            let a = scope_step(s, st);
            Step {
                out: Spanned { span: e.span, value: ExprView::Scope(a.out) },
                st: a.st,
                reports: a.reports,
            }
        },
        Expr::Call { callee, generics, args } => {
            let c = expr_step(*callee, st);
            let g = match generics {
                Some(g) => {
                    let t = stypes_step(g@, c.st);
                    Step { out: Some(t.out), st: t.st, reports: t.reports }
                },
                None => quiet(None, c.st),
            };
            let a = exprs_step(args@, c.st);
            Step {
                out: Spanned {
                    span: e.span,
                    value: ExprView::Call { callee: Box::new(c.out), generics: g.out, args: a.out },
                },
                st: a.st,
                reports: c.reports + g.reports + a.reports,
            }
        },
    }
}

/// [`expr_step`] of each expression, in order.
pub open spec fn exprs_step(es: Seq<Spanned<HoistedExpr>>, st: RState) -> Step<Seq<Spanned<ExprView>>>
    decreases es, 0nat,
{
    if es.len() == 0 {
        quiet(Seq::empty(), st)
    } else {
        let a = exprs_step(es.drop_last(), st);
        let b = expr_step(es.last(), a.st);
        Step { out: a.out.push(b.out), st: b.st, reports: a.reports + b.reports }
    }
}

/// The body of a function, if it has one.
pub open spec fn body_step(body: Option<Spanned<HoistedScope>>, st: RState) -> Step<
    Option<Spanned<ScopeView>>,
>
    decreases body, 0nat,
{
    match body {
        Some(b) => {
            let s = scope_step(b.value, st);
            Step { out: Some(Spanned { span: b.span, value: s.out }), st: s.st, reports: s.reports }
        },
        None => quiet(None, st),
    }
}

/// The signature and the body of a function. What the signature declares
/// is in sight of the body and of nothing after it.
pub open spec fn func_parts_step(
    sig: Signature,
    body: Option<Spanned<HoistedScope>>,
    st: RState,
) -> Step<(SignatureView, Option<Spanned<ScopeView>>)>
    decreases body, 1nat,
{
    let s = signature_step(sig, st);
    let b = body_step(body, s.st);
    Step {
        out: (s.out, b.out),
        st: RState { names: st.names, kinds: b.st.kinds, counter: b.st.counter },
        reports: s.reports + b.reports,
    }
}

/// A statement. A declaration brings its name in sight before its value
/// is resolved.
pub open spec fn stmt_step(s: Spanned<HoistedStmt>, st: RState) -> Step<Spanned<StmtView>>
    decreases s, 1nat,
{
    match s.value {
        Stmt::Create { ty_id, mutable, value } => {
            let t = typed_ident_step(ty_id, st);
            let v = match value {
                Some(e) => {
                    let r = expr_step(e, t.st);
                    Step { out: Some(r.out), st: r.st, reports: r.reports }
                },
                None => quiet(None, t.st),
            };
            Step {
                out: Spanned {
                    span: s.span,
                    value: StmtView::Create { ty_id: t.out, mutable, value: v.out },
                },
                st: v.st,
                reports: t.reports + v.reports,
            }
        },
        Stmt::Assign { id, value } => {
            let u = use_step(id, Role::Target, st);
            let v = expr_step(value, st);
            Step {
                out: Spanned { span: s.span, value: StmtView::Assign { id: u.out, value: v.out } },
                st: v.st,
                reports: u.reports + v.reports,
            }
        },
        Stmt::Func { id, signature, body } => {
            let n = new_step(id, MapRepr::Func, st);
            let p = func_parts_step(signature, body, n.st);
            Step {
                out: Spanned {
                    span: s.span,
                    value: StmtView::Func { id: n.out, signature: p.out.0, body: p.out.1 },
                },
                st: p.st,
                reports: n.reports + p.reports,
            }
        },
        Stmt::Return { value, is_yield } => {
            let v = expr_step(value, st);
            Step {
                out: Spanned { span: s.span, value: StmtView::Return { value: v.out, is_yield } },
                st: v.st,
                reports: v.reports,
            }
        },
    }
}

/// [`stmt_step`] of each statement, in order.
pub open spec fn stmts_step(ss: Seq<Spanned<HoistedStmt>>, st: RState) -> Step<Seq<Spanned<StmtView>>>
    decreases ss, 0nat,
{
    if ss.len() == 0 {
        quiet(Seq::empty(), st)
    } else {
        let a = stmts_step(ss.drop_last(), st);
        let b = stmt_step(ss.last(), a.st);
        Step { out: a.out.push(b.out), st: b.st, reports: a.reports + b.reports }
    }
}

/// The functions of a table declared, in order; the result holds their
/// resolved names.
pub open spec fn make_funcs_step(funcs: Seq<(Ident, Spanned<HoistedFunc>)>, st: RState) -> Step<
    Seq<Spanned<IdentView>>,
>
    decreases funcs.len(),
{
    if funcs.len() == 0 {
        quiet(Seq::empty(), st)
    } else {
        let a = make_funcs_step(funcs.drop_last(), st);
        let b = new_step(funcs.last().1.value.id, MapRepr::Func, a.st);
        Step { out: a.out.push(b.out), st: b.st, reports: a.reports + b.reports }
    }
}

/// The variables of a table declared, in order; the result holds their
/// resolved names.
pub open spec fn make_vars_step(vars: Seq<(Ident, Spanned<Var>)>, st: RState) -> Step<
    Seq<Spanned<IdentView>>,
>
    decreases vars.len(),
{
    if vars.len() == 0 {
        quiet(Seq::empty(), st)
    } else {
        let a = make_vars_step(vars.drop_last(), st);
        let b = new_step(
            Spanned { span: vars.last().1.span, value: vars.last().0 },
            MapRepr::Var,
            a.st,
        );
        Step { out: a.out.push(b.out), st: b.st, reports: a.reports + b.reports }
    }
}

/// The functions of a table resolved, in order, each under its resolved
/// name from `ids`.
pub open spec fn funcs_step(
    funcs: Seq<(Ident, Spanned<HoistedFunc>)>,
    ids: Seq<Spanned<IdentView>>,
    st: RState,
) -> Step<Seq<(IdentView, Spanned<FuncView>)>>
    decreases funcs, 0nat,
{
    if funcs.len() == 0 {
        quiet(Seq::empty(), st)
    } else {
        let a = funcs_step(funcs.drop_last(), ids.drop_last(), st);
        let f = funcs.last().1;
        let p = func_parts_step(f.value.signature, f.value.body, a.st);
        Step {
            out: a.out.push(
                (
                    ids.last().value,
                    Spanned {
                        span: f.span,
                        value: FuncView { id: ids.last(), signature: p.out.0, body: p.out.1 },
                    },
                ),
            ),
            st: p.st,
            reports: a.reports + p.reports,
        }
    }
}

/// A scope: its functions are declared first, then its statements are
/// resolved in order, then its functions. What the scope declares is in
/// sight of nothing after it.
pub open spec fn scope_step(scope: HoistedScope, st: RState) -> Step<ScopeView>
    decreases scope, 0nat,
{
    let f = make_funcs_step(scope.data.funcs@, st);
    let s = stmts_step(scope.stmts@, f.st);
    let g = funcs_step(scope.data.funcs@, f.out, s.st);
    Step {
        out: ScopeView { stmts: s.out, vars: created_view(s.out), funcs: g.out },
        st: RState { names: st.names, kinds: g.st.kinds, counter: g.st.counter },
        reports: f.reports + s.reports + g.reports,
    }
}

/// A program: with nothing known but the functions and variables of
/// `imported`, declared in this order, the program is resolved as a
/// scope. The names in sight afterwards are those of `imported`.
pub open spec fn resolve_step(scope: HoistedScope, imported: HoistedScopeData, counter: Id) -> Step<
    ScopeView,
> {
    let st = RState { names: Map::empty(), kinds: Map::empty(), counter };
    let f = make_funcs_step(imported.funcs@, st);
    let v = make_vars_step(imported.vars@, f.st);
    let s = scope_step(scope, v.st);
    Step { out: s.out, st: s.st, reports: f.reports + v.reports + s.reports }
}

} // verus!
