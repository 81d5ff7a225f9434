//! What inference computes, as functions of the program and of what is
//! known when it begins.

use crate::common::diagnostics::{out_of_ids_diagnostic, DiagnosticView};
use crate::common::expr::Expr;
use crate::common::func::Signature;
use crate::common::ident::{Id, Ident};
use crate::common::span::{Span, Spanned};
use crate::common::stmt::Stmt;
use crate::common::typed_ident::TypedIdent;
use crate::common::types::{BuiltIn, Type};
use crate::hoister::{HoistedExpr, HoistedFunc, HoistedScope, HoistedStmt, Var};
use crate::infer::engine::{
    table_report, table_resolved, table_result, table_root_text, table_unified, Table,
};
use crate::infer::to_info::{literal_info, return_note, unnecessary_stmt_diagnostic, written_info};
use crate::infer::type_info::{TypeId, TypeInfoView};
use vstd::prelude::*;

verus! {

/// What inference knows at one moment.
pub ghost struct IState {
    /// The table of types.
    pub table: Table,
    /// The handle given out last.
    pub counter: nat,
    /// The type of each variable and function.
    pub vars: Map<Id, Spanned<TypeId>>,
    /// The type each type name stands for.
    pub named: Map<Id, Spanned<TypeId>>,
}

/// What one step of inference gives: its result, what is known after it,
/// and what it reports.
pub ghost struct IStep<T> {
    pub out: T,
    pub st: IState,
    pub reports: Seq<DiagnosticView>,
}

/// A step that changes nothing and reports nothing.
pub open spec fn still<T>(out: T, st: IState) -> IStep<T> {
    IStep { out, st, reports: Seq::empty() }
}

/// The number of a resolved name; 0 for any other.
pub open spec fn number_spec(ident: Ident) -> Id {
    match ident {
        Ident::Resolved(n) => n,
        _ => 0,
    }
}

/// A new type with the info `info`, found at `span`: it gets the next
/// handle. If none is left, that is reported and the handle given out
/// last comes back.
#[verifier::opaque]
pub open spec fn record_step(info: TypeInfoView, span: Span, st: IState) -> IStep<Spanned<TypeId>> {
    if st.counter < usize::MAX {
        let id = (st.counter + 1) as usize;
        still(
            Spanned { span, value: id },
            IState { table: st.table.insert(id, info), counter: id as nat, ..st },
        )
    } else {
        IStep {
            out: Spanned { span, value: st.counter as usize },
            st,
            reports: seq![out_of_ids_diagnostic(span)],
        }
    }
}

/// The unification of `a` and `b` under `title`, with `notes`.
#[verifier::opaque]
pub open spec fn unify_step(
    a: Spanned<TypeId>,
    b: Spanned<TypeId>,
    title: Seq<char>,
    notes: Seq<Seq<char>>,
    st: IState,
) -> IStep<TypeInfoView> {
    IStep {
        out: table_result(st.table, a.value, b.value),
        st: IState { table: table_unified(st.table, a.value, b.value), ..st },
        reports: table_report(st.table, st.counter, a, b, title, notes),
    }
}

/// A new type with the info of a type as written.
pub open spec fn written_step(ty: Spanned<Type>, st: IState) -> IStep<Spanned<TypeId>> {
    record_step(written_info(ty.value, st.named, st.table), ty.span, st)
}

/// A generic parameter: a new type that stays what it is, seen from
/// inside the function (`rigid`), or is to be found, seen from outside;
/// the parameter stands for it from now on.
pub open spec fn generic_step(g: Spanned<Ident>, rigid: bool, st: IState) -> IStep<TypeId> {
    let id = number_spec(g.value);
    let r = record_step(
        if rigid {
            TypeInfoView::Generic(id)
        } else {
            TypeInfoView::UnknownGeneric(id)
        },
        g.span,
        st,
    );
    IStep {
        out: r.out.value,
        st: if id != 0 {
            IState { named: r.st.named.insert(id, r.out), ..r.st }
        } else {
            r.st
        },
        reports: r.reports,
    }
}

/// [`generic_step`] of each parameter, in order.
pub open spec fn generics_step(gs: Seq<Spanned<Ident>>, rigid: bool, st: IState) -> IStep<
    Seq<TypeId>,
>
    decreases gs.len(),
{
    if gs.len() == 0 {
        still(Seq::empty(), st)
    } else {
        let a = generics_step(gs.drop_last(), rigid, st);
        let b = generic_step(gs.last(), rigid, a.st);
        IStep { out: a.out.push(b.out), st: b.st, reports: a.reports + b.reports }
    }
}

/// The types of the arguments as written, seen from outside: a new type
/// each.
pub open spec fn outside_args_step(args: Seq<Spanned<TypedIdent>>, st: IState) -> IStep<Seq<TypeId>>
    decreases args.len(),
{
    if args.len() == 0 {
        still(Seq::empty(), st)
    } else {
        let a = outside_args_step(args.drop_last(), st);
        let b = written_step(args.last().value.ty, a.st);
        IStep { out: a.out.push(b.out.value), st: b.st, reports: a.reports + b.reports }
    }
}

/// The info of a function as seen from outside.
pub open spec fn signature_step(sig: Signature, st: IState) -> IStep<TypeInfoView> {
    let g = generics_step(sig.generics.value@, false, st);
    let a = outside_args_step(sig.args.value@, g.st);
    let r = written_step(sig.return_ty, a.st);
    IStep {
        out: TypeInfoView::FuncSignature { return_ty: r.out.value, args: a.out, generics: g.out },
        st: r.st,
        reports: g.reports + a.reports + r.reports,
    }
}

/// The arguments seen from inside the function: each is a variable of
/// the type as written.
pub open spec fn inside_args_step(args: Seq<Spanned<TypedIdent>>, st: IState) -> IStep<()>
    decreases args.len(),
{
    if args.len() == 0 {
        still((), st)
    } else {
        let a = inside_args_step(args.drop_last(), st);
        let b = written_step(args.last().value.ty, a.st);
        let id = number_spec(args.last().value.ident.value);
        IStep {
            out: (),
            st: if id != 0 {
                IState { vars: b.st.vars.insert(id, b.out), ..b.st }
            } else {
                b.st
            },
            reports: a.reports + b.reports,
        }
    }
}

/// The info of an expression.
pub open spec fn expr_step(e: Spanned<HoistedExpr>, st: IState) -> IStep<TypeInfoView>
    decreases e, 0nat,
{
    match e.value {
        Expr::NumberLiteral(x) => still(literal_info(x.ty), st),
        Expr::Identifier(x) => still(
            if st.vars.contains_key(number_spec(x)) {
                TypeInfoView::SameAs(st.vars[number_spec(x)].value)
            } else {
                TypeInfoView::Bottom
            },
            st,
        ),
        Expr::BinaryOp(l, _, r) => {
            let a = handle_step(*l, st);
            let b = handle_step(*r, a.st);
            let u = unify_step(a.out, b.out, "type conflict"@, Seq::empty(), b.st);
            IStep {
                out: if u.out is Bottom {
                    TypeInfoView::Bottom
                } else {
                    TypeInfoView::SameAs(a.out.value)
                },
                st: u.st,
                reports: a.reports + b.reports + u.reports,
            }
        },
        Expr::UnaryOp(_, v) => expr_step(*v, st),
        Expr::Scope(s) => scope_step(s, st),
        Expr::Call { .. } => still(TypeInfoView::Unknown, st),
    }
}

/// A new type with the info of an expression.
pub open spec fn handle_step(e: Spanned<HoistedExpr>, st: IState) -> IStep<Spanned<TypeId>>
    decreases e, 1nat,
{
    let i = expr_step(e, st);
    let r = record_step(i.out, e.span, i.st);
    IStep { out: r.out, st: r.st, reports: i.reports + r.reports }
}

/// The unification of the type of the variable `ident`, if it has one,
/// with the type of `value`.
pub open spec fn value_step(ident: Ident, value: Spanned<HoistedExpr>, st: IState) -> IStep<()>
    decreases value, 2nat,
{
    let v = handle_step(value, st);
    let id = number_spec(ident);
    if v.st.vars.contains_key(id) {
        let u = unify_step(v.st.vars[id], v.out, "type conflict"@, Seq::empty(), v.st);
        IStep { out: (), st: u.st, reports: v.reports + u.reports }
    } else {
        IStep { out: (), st: v.st, reports: v.reports }
    }
}

/// The return type of a function as seen from outside, if the function
/// is registered with one that the table holds.
pub open spec fn outside_return_spec(f: HoistedFunc, st: IState) -> Option<TypeId> {
    let id = number_spec(f.id.value);
    if st.vars.contains_key(id) && st.table.contains_key(st.vars[id].value) {
        match st.table[st.vars[id].value] {
            TypeInfoView::FuncSignature { return_ty, .. } => if st.table.contains_key(return_ty) {
                Some(return_ty)
            } else {
                None
            },
            _ => None,
        }
    } else {
        None
    }
}

/// The type that the body of a function is held to: the one written, as
/// a new type, or, where none is written, the one the function has as
/// seen from outside.
pub open spec fn return_step(f: HoistedFunc, st: IState) -> IStep<Spanned<TypeId>> {
    let outside = if f.signature.return_ty.value is Inferred {
        outside_return_spec(f, st)
    } else {
        None
    };
    match outside {
        Some(handle) => still(Spanned { span: f.signature.return_ty.span, value: handle }, st),
        None => written_step(f.signature.return_ty, st),
    }
}

/// The check of a body against the return type `return_ty`.
pub open spec fn body_step(body: Spanned<HoistedScope>, return_ty: Spanned<TypeId>, st: IState)
    -> IStep<()>
    decreases body, 0nat,
{
    let i = scope_step(body.value, st);
    let a = record_step(i.out, body.span, i.st);
    let declared = table_root_text(a.st.table, a.st.counter, return_ty.value);
    let returned = table_root_text(a.st.table, a.st.counter, a.out.value);
    let is_void = table_resolved(a.st.table, a.out.value) == TypeInfoView::BuiltIn(BuiltIn::Void);
    let u = unify_step(
        return_ty,
        a.out,
        "type conflict: incorrect return type"@,
        seq![return_note(declared, returned, is_void)],
        a.st,
    );
    IStep { out: (), st: u.st, reports: i.reports + a.reports + u.reports }
}

/// The check of a function from inside.
pub open spec fn func_step(f: HoistedFunc, st: IState) -> IStep<()>
    decreases f, 0nat,
{
    let g = generics_step(f.signature.generics.value@, true, st);
    let a = inside_args_step(f.signature.args.value@, g.st);
    let r = return_step(f, a.st);
    match f.body {
        Some(body) => {
            let b = body_step(body, r.out, r.st);
            IStep { out: (), st: b.st, reports: g.reports + a.reports + r.reports + b.reports }
        },
        None => IStep { out: (), st: r.st, reports: g.reports + a.reports + r.reports },
    }
}

/// The variables of a table registered with their types as written, in
/// order.
pub open spec fn register_vars_step(vars: Seq<(Ident, Spanned<Var>)>, st: IState) -> IStep<()>
    decreases vars.len(),
{
    if vars.len() == 0 {
        still((), st)
    } else {
        let a = register_vars_step(vars.drop_last(), st);
        let v = vars.last();
        let b = record_step(written_info(v.1.value.ty, a.st.named, a.st.table), v.1.span, a.st);
        let id = number_spec(v.0);
        IStep {
            out: (),
            st: if id != 0 {
                IState { vars: b.st.vars.insert(id, b.out), ..b.st }
            } else {
                b.st
            },
            reports: a.reports + b.reports,
        }
    }
}

/// The functions of a table registered with their infos as seen from
/// outside, in order.
pub open spec fn register_funcs_step(funcs: Seq<(Ident, Spanned<HoistedFunc>)>, st: IState) -> IStep<
    (),
>
    decreases funcs.len(),
{
    if funcs.len() == 0 {
        still((), st)
    } else {
        let a = register_funcs_step(funcs.drop_last(), st);
        let f = funcs.last();
        let s = signature_step(f.1.value.signature, a.st);
        let b = record_step(s.out, f.1.span, s.st);
        let id = number_spec(f.0);
        IStep {
            out: (),
            st: if id != 0 {
                IState { vars: b.st.vars.insert(id, b.out), ..b.st }
            } else {
                b.st
            },
            reports: a.reports + s.reports + b.reports,
        }
    }
}

/// What a walk over statements carries along: whether the scope has
/// returned or yielded, and the info of what it did.
pub ghost struct Carried {
    pub returned: bool,
    pub result: TypeInfoView,
}

/// A statement: after a return or yield it is warned of; a declaration
/// with a value and an assignment are unified with the value; a return
/// or yield gives the scope its info.
pub open spec fn stmt_step(s: Spanned<HoistedStmt>, carried: Carried, st: IState) -> IStep<Carried>
    decreases s, 0nat,
{
    let warning = if carried.returned {
        seq![unnecessary_stmt_diagnostic(s.span)]
    } else {
        Seq::empty()
    };
    match s.value {
        Stmt::Create { ty_id, value: Some(v), .. } => {
            let u = value_step(ty_id.value.ident.value, v, st);
            IStep { out: carried, st: u.st, reports: warning + u.reports }
        },
        Stmt::Assign { id, value } => {
            let u = value_step(id.value, value, st);
            IStep { out: carried, st: u.st, reports: warning + u.reports }
        },
        Stmt::Return { value, .. } => {
            let i = expr_step(value, st);
            IStep {
                out: Carried { returned: true, result: i.out },
                st: i.st,
                reports: warning + i.reports,
            }
        },
        _ => IStep { out: carried, st, reports: warning },
    }
}

/// [`stmt_step`] of each statement, in order.
pub open spec fn stmts_step(ss: Seq<Spanned<HoistedStmt>>, carried: Carried, st: IState) -> IStep<
    Carried,
>
    decreases ss, 0nat,
{
    if ss.len() == 0 {
        still(carried, st)
    } else {
        let a = stmts_step(ss.drop_last(), carried, st);
        let b = stmt_step(ss.last(), a.out, a.st);
        IStep { out: b.out, st: b.st, reports: a.reports + b.reports }
    }
}

/// [`func_step`] of each function of a table, in order.
pub open spec fn funcs_step(funcs: Seq<(Ident, Spanned<HoistedFunc>)>, st: IState) -> IStep<()>
    decreases funcs, 0nat,
{
    if funcs.len() == 0 {
        still((), st)
    } else {
        let a = funcs_step(funcs.drop_last(), st);
        let b = func_step(funcs.last().1.value, a.st);
        IStep { out: (), st: b.st, reports: a.reports + b.reports }
    }
}

/// The info of a scope: that of the value it returns or yields, `void`
/// if it does neither. First the variables and functions of its table
/// are registered, then its statements are walked, then its functions
/// are checked.
pub open spec fn scope_step(scope: HoistedScope, st: IState) -> IStep<TypeInfoView>
    decreases scope, 0nat,
{
    let v = register_vars_step(scope.data.vars@, st);
    let f = register_funcs_step(scope.data.funcs@, v.st);
    let s = stmts_step(
        scope.stmts@,
        Carried { returned: false, result: TypeInfoView::BuiltIn(BuiltIn::Void) },
        f.st,
    );
    let c = funcs_step(scope.data.funcs@, s.st);
    IStep {
        out: s.out.result,
        st: c.st,
        reports: v.reports + f.reports + s.reports + c.reports,
    }
}

/// The inference of a program, with nothing known before.
pub open spec fn infer_step(scope: HoistedScope, table: Table, counter: nat) -> IStep<
    TypeInfoView,
> {
    scope_step(
        scope,
        IState { table, counter, vars: Map::empty(), named: Map::empty() },
    )
}

} // verus!
