//! What it means for a tree to be the resolved form of another.

use crate::common::expr::Expr;
use crate::common::func::Signature;
use crate::common::ident::{Id, Ident};
use crate::common::span::Spanned;
use crate::common::stmt::Stmt;
use crate::common::typed_ident::TypedIdent;
use crate::common::types::Type;
use crate::hoister::{HoistedExpr, HoistedFunc, HoistedScope, HoistedStmt};
use crate::hoister::view::{created, vars_table_view};
use crate::resolver::mappings::MapRepr;
use vstd::prelude::*;

verus! {

/// The part a name plays where it stands.
#[derive(Debug, Clone, Copy, PartialEq, Eq, Hash, Structural)]
pub enum Role {
    /// It is read as a value.
    Value,
    /// It is assigned to.
    Target,
    /// It names a type.
    TypeName,
    /// It is declared, as the given kind.
    Decl(MapRepr),
}

/// Whether a name of kind `kind` may play the part `role`.
pub open spec fn role_allows(role: Role, kind: MapRepr) -> bool {
    match role {
        Role::Value => kind == MapRepr::Var || kind == MapRepr::Func,
        Role::Target => kind == MapRepr::Var,
        Role::TypeName => kind == MapRepr::Type,
        Role::Decl(k) => kind == k,
    }
}

/// Whether `out` is a resolved name that plays the part `role`. It is the
/// wildcard, at a declaration, or a number. The number 0 stands for a name
/// that could not be resolved, which was reported; any other number has a
/// kind in `kinds`: at a declaration the kind declared, elsewhere a kind
/// that may play the part unless something was reported (`clean` says that
/// nothing was).
pub open spec fn ident_bound(out: Ident, role: Role, kinds: Map<Id, MapRepr>, clean: bool) -> bool {
    match out {
        Ident::Resolved(id) => if id == 0 {
            !clean
        } else {
            kinds.contains_key(id) && (match role {
                Role::Decl(k) => kinds[id] == k,
                _ => clean ==> role_allows(role, kinds[id]),
            })
        },
        Ident::Discarded => role is Decl,
        _ => false,
    }
}

/// Whether `b` is the type `a` with its names resolved.
pub open spec fn type_resolves(a: Type, b: Type, kinds: Map<Id, MapRepr>, clean: bool) -> bool
    decreases a,
{
    match a {
        Type::User(_) => b matches Type::User(i) && ident_bound(i, Role::TypeName, kinds, clean),
        Type::BuiltIn(x) => b == Type::BuiltIn(x),
        Type::Generic(base, args) => b matches Type::Generic(b2, a2) && type_resolves(
            *base,
            *b2,
            kinds,
            clean,
        ) && types_resolve(args@, a2@, kinds, clean),
        Type::Inferred => b is Inferred,
    }
}

/// [`type_resolves`], one by one.
pub open spec fn types_resolve(a: Seq<Type>, b: Seq<Type>, kinds: Map<Id, MapRepr>, clean: bool)
    -> bool
    decreases a,
{
    a.len() == b.len() && (a.len() == 0 || (type_resolves(a.last(), b.last(), kinds, clean)
        && types_resolve(a.drop_last(), b.drop_last(), kinds, clean)))
}

/// [`type_resolves`] of the values, and the same span.
pub open spec fn stype_resolves(
    a: Spanned<Type>,
    b: Spanned<Type>,
    kinds: Map<Id, MapRepr>,
    clean: bool,
) -> bool {
    a.span == b.span && type_resolves(a.value, b.value, kinds, clean)
}

/// [`stype_resolves`], one by one.
pub open spec fn stypes_resolve(
    a: Seq<Spanned<Type>>,
    b: Seq<Spanned<Type>>,
    kinds: Map<Id, MapRepr>,
    clean: bool,
) -> bool
    decreases a.len(),
{
    a.len() == b.len() && (a.len() == 0 || (stype_resolves(a.last(), b.last(), kinds, clean)
        && stypes_resolve(a.drop_last(), b.drop_last(), kinds, clean)))
}

/// Whether `b` is the declaration `a` resolved: the type resolved, the
/// name a variable or the wildcard.
pub open spec fn typed_ident_resolves(
    a: Spanned<TypedIdent>,
    b: Spanned<TypedIdent>,
    kinds: Map<Id, MapRepr>,
    clean: bool,
) -> bool {
    &&& a.span == b.span
    &&& stype_resolves(a.value.ty, b.value.ty, kinds, clean)
    &&& a.value.ident.span == b.value.ident.span
    &&& ident_bound(b.value.ident.value, Role::Decl(MapRepr::Var), kinds, clean)
}

/// [`typed_ident_resolves`], one by one.
pub open spec fn typed_idents_resolve(
    a: Seq<Spanned<TypedIdent>>,
    b: Seq<Spanned<TypedIdent>>,
    kinds: Map<Id, MapRepr>,
    clean: bool,
) -> bool
    decreases a.len(),
{
    a.len() == b.len() && (a.len() == 0 || (typed_ident_resolves(a.last(), b.last(), kinds, clean)
        && typed_idents_resolve(a.drop_last(), b.drop_last(), kinds, clean)))
}

/// Whether `b` are the generic parameters `a` resolved: each a type or the
/// wildcard, at its span.
pub open spec fn generics_resolve(
    a: Seq<Spanned<Ident>>,
    b: Seq<Spanned<Ident>>,
    kinds: Map<Id, MapRepr>,
    clean: bool,
) -> bool
    decreases a.len(),
{
    a.len() == b.len() && (a.len() == 0 || (a.last().span == b.last().span && ident_bound(
        b.last().value,
        Role::Decl(MapRepr::Type),
        kinds,
        clean,
    ) && generics_resolve(a.drop_last(), b.drop_last(), kinds, clean)))
}

/// Whether `b` is the signature `a` resolved.
pub open spec fn signature_resolves(
    a: Signature,
    b: Signature,
    kinds: Map<Id, MapRepr>,
    clean: bool,
) -> bool {
    &&& a.attribs == b.attribs
    &&& a.linkage == b.linkage
    &&& stype_resolves(a.return_ty, b.return_ty, kinds, clean)
    &&& a.args.span == b.args.span
    &&& typed_idents_resolve(a.args.value@, b.args.value@, kinds, clean)
    &&& a.generics.span == b.generics.span
    &&& generics_resolve(a.generics.value@, b.generics.value@, kinds, clean)
}

/// Whether `b` is the expression `a` resolved: the same tree and spans,
/// every name a number.
pub open spec fn expr_resolves(a: HoistedExpr, b: HoistedExpr, kinds: Map<Id, MapRepr>, clean: bool)
    -> bool
    decreases a,
{
    match a {
        Expr::NumberLiteral(x) => b matches Expr::NumberLiteral(y) && y@ == x@,
        Expr::Identifier(_) => b matches Expr::Identifier(y) && y is Resolved && ident_bound(
            y,
            Role::Value,
            kinds,
            clean,
        ),
        Expr::BinaryOp(l, op, r) => b matches Expr::BinaryOp(l2, op2, r2) && op2 == op
            && sexpr_resolves(*l, *l2, kinds, clean) && sexpr_resolves(*r, *r2, kinds, clean),
        Expr::UnaryOp(op, v) => b matches Expr::UnaryOp(op2, v2) && op2 == op && sexpr_resolves(
            *v,
            *v2,
            kinds,
            clean,
        ),
        Expr::Scope(s) => b matches Expr::Scope(s2) && scope_resolves(s, s2, kinds, clean),
        Expr::Call { callee, generics, args } => b matches Expr::Call {
            callee: c2,
            generics: g2,
            args: a2,
        } && sexpr_resolves(*callee, *c2, kinds, clean) && (match generics {
            Some(g) => g2 matches Some(gg) && stypes_resolve(g@, gg@, kinds, clean),
            None => g2 is None,
        }) && exprs_resolve(args@, a2@, kinds, clean),
    }
}

/// [`expr_resolves`] of the values, and the same span.
pub open spec fn sexpr_resolves(
    a: Spanned<HoistedExpr>,
    b: Spanned<HoistedExpr>,
    kinds: Map<Id, MapRepr>,
    clean: bool,
) -> bool
    decreases a,
{
    a.span == b.span && expr_resolves(a.value, b.value, kinds, clean)
}

/// [`sexpr_resolves`], one by one.
pub open spec fn exprs_resolve(
    a: Seq<Spanned<HoistedExpr>>,
    b: Seq<Spanned<HoistedExpr>>,
    kinds: Map<Id, MapRepr>,
    clean: bool,
) -> bool
    decreases a,
{
    a.len() == b.len() && (a.len() == 0 || (sexpr_resolves(a.last(), b.last(), kinds, clean)
        && exprs_resolve(a.drop_last(), b.drop_last(), kinds, clean)))
}

/// [`sexpr_resolves`] of an expression that may be missing.
pub open spec fn opt_expr_resolves(
    a: Option<Spanned<HoistedExpr>>,
    b: Option<Spanned<HoistedExpr>>,
    kinds: Map<Id, MapRepr>,
    clean: bool,
) -> bool
    decreases a,
{
    match a {
        Some(e) => b matches Some(e2) && sexpr_resolves(e, e2, kinds, clean),
        None => b is None,
    }
}

/// Whether `b` is the statement `a` resolved.
pub open spec fn stmt_resolves(
    a: Spanned<HoistedStmt>,
    b: Spanned<HoistedStmt>,
    kinds: Map<Id, MapRepr>,
    clean: bool,
) -> bool
    decreases a,
{
    a.span == b.span && match a.value {
        Stmt::Create { ty_id, mutable, value } => b.value matches Stmt::Create {
            ty_id: t2,
            mutable: m2,
            value: v2,
        } && typed_ident_resolves(ty_id, t2, kinds, clean) && m2 == mutable && opt_expr_resolves(
            value,
            v2,
            kinds,
            clean,
        ),
        Stmt::Assign { id, value } => b.value matches Stmt::Assign { id: i2, value: v2 }
            && i2.span == id.span && i2.value is Resolved && ident_bound(
            i2.value,
            Role::Target,
            kinds,
            clean,
        ) && sexpr_resolves(value, v2, kinds, clean),
        Stmt::Func { id, signature, body } => b.value matches Stmt::Func {
            id: i2,
            signature: s2,
            body: b2,
        } && func_parts_resolve(id, signature, body, i2, s2, b2, kinds, clean),
        Stmt::Return { value, is_yield } => b.value matches Stmt::Return {
            value: v2,
            is_yield: y2,
        } && y2 == is_yield && sexpr_resolves(value, v2, kinds, clean),
    }
}

/// [`stmt_resolves`], one by one.
pub open spec fn stmts_resolve(
    a: Seq<Spanned<HoistedStmt>>,
    b: Seq<Spanned<HoistedStmt>>,
    kinds: Map<Id, MapRepr>,
    clean: bool,
) -> bool
    decreases a,
{
    a.len() == b.len() && (a.len() == 0 || (stmt_resolves(a.last(), b.last(), kinds, clean)
        && stmts_resolve(a.drop_last(), b.drop_last(), kinds, clean)))
}

/// Whether the second name, signature and body are the first ones
/// resolved.
pub open spec fn func_parts_resolve(
    id: Spanned<Ident>,
    signature: Signature,
    body: Option<Spanned<HoistedScope>>,
    id2: Spanned<Ident>,
    signature2: Signature,
    body2: Option<Spanned<HoistedScope>>,
    kinds: Map<Id, MapRepr>,
    clean: bool,
) -> bool
    decreases body, 1nat,
{
    &&& id.span == id2.span
    &&& ident_bound(id2.value, Role::Decl(MapRepr::Func), kinds, clean)
    &&& signature_resolves(signature, signature2, kinds, clean)
    &&& body_resolves(body, body2, kinds, clean)
}

/// Whether `body2` is the body `body` resolved, at its span; a function
/// without a body stays without.
pub open spec fn body_resolves(
    body: Option<Spanned<HoistedScope>>,
    body2: Option<Spanned<HoistedScope>>,
    kinds: Map<Id, MapRepr>,
    clean: bool,
) -> bool
    decreases body, 0nat,
{
    match body {
        Some(s) => body2 matches Some(s2) && s.span == s2.span && scope_resolves(
            s.value,
            s2.value,
            kinds,
            clean,
        ),
        None => body2 is None,
    }
}

/// Whether `b` is the function `a` resolved.
pub open spec fn func_resolves(a: HoistedFunc, b: HoistedFunc, kinds: Map<Id, MapRepr>, clean: bool)
    -> bool
    decreases a,
{
    func_parts_resolve(a.id, a.signature, a.body, b.id, b.signature, b.body, kinds, clean)
}

/// Whether `b` is the table of functions `a` resolved: entry by entry, in
/// order, under the resolved name of each function, at its span.
pub open spec fn funcs_resolve(
    a: Seq<(Ident, Spanned<HoistedFunc>)>,
    b: Seq<(Ident, Spanned<HoistedFunc>)>,
    kinds: Map<Id, MapRepr>,
    clean: bool,
) -> bool
    decreases a,
{
    a.len() == b.len() && (a.len() == 0 || (a.last().1.span == b.last().1.span && b.last().0@
        == b.last().1.value.id.value@ && func_resolves(
        a.last().1.value,
        b.last().1.value,
        kinds,
        clean,
    ) && funcs_resolve(a.drop_last(), b.drop_last(), kinds, clean)))
}

/// Whether `b` is the scope `a` resolved: statement by statement, with a
/// table that holds the variables the resolved statements declare, one
/// entry each, and the functions of `a` resolved.
pub open spec fn scope_resolves(
    a: HoistedScope,
    b: HoistedScope,
    kinds: Map<Id, MapRepr>,
    clean: bool,
) -> bool
    decreases a,
{
    &&& stmts_resolve(a.stmts@, b.stmts@, kinds, clean)
    &&& vars_table_view(b.data.vars@) == created(b.stmts@)
    &&& funcs_resolve(a.data.funcs@, b.data.funcs@, kinds, clean)
}

/// Whether what held of `kinds` and `clean` holds of `kinds2` and
/// `clean2` too: the kinds have only grown, and if nothing is reported
/// now, nothing was then.
pub open spec fn grown(
    kinds: Map<Id, MapRepr>,
    clean: bool,
    kinds2: Map<Id, MapRepr>,
    clean2: bool,
) -> bool {
    extends(kinds2, kinds) && (clean2 ==> clean)
}

/// Whether `more` holds every kind that `less` holds.
pub open spec fn extends(more: Map<Id, MapRepr>, less: Map<Id, MapRepr>) -> bool {
    forall|k: Id| #[trigger] less.contains_key(k) ==> more.contains_key(k) && more[k] == less[k]
}

/// A name that is bound stays bound when the kinds grow.
pub proof fn lemma_ident_grown(
    out: Ident,
    role: Role,
    kinds: Map<Id, MapRepr>,
    clean: bool,
    kinds2: Map<Id, MapRepr>,
    clean2: bool,
)
    requires
        ident_bound(out, role, kinds, clean),
        grown(kinds, clean, kinds2, clean2),
    ensures
        ident_bound(out, role, kinds2, clean2),
{
    match out {
        Ident::Resolved(id) => {
            if id != 0 {
                assert(kinds.contains_key(id));
            }
        },
        _ => {},
    }
}

/// A resolved type stays resolved when the kinds grow.
pub proof fn lemma_type_grown(
    a: Type,
    b: Type,
    kinds: Map<Id, MapRepr>,
    clean: bool,
    kinds2: Map<Id, MapRepr>,
    clean2: bool,
)
    requires
        type_resolves(a, b, kinds, clean),
        grown(kinds, clean, kinds2, clean2),
    ensures
        type_resolves(a, b, kinds2, clean2),
    decreases a, 1nat,
{
    match a {
        Type::User(_) => {
            lemma_ident_grown(b->User_0, Role::TypeName, kinds, clean, kinds2, clean2);
        },
        Type::Generic(base, args) => {
            lemma_type_grown(*base, *b->Generic_0, kinds, clean, kinds2, clean2);
            lemma_types_grown(args@, b->Generic_1@, kinds, clean, kinds2, clean2);
        },
        _ => {},
    }
}

/// Resolved types stay resolved when the kinds grow.
pub proof fn lemma_types_grown(
    a: Seq<Type>,
    b: Seq<Type>,
    kinds: Map<Id, MapRepr>,
    clean: bool,
    kinds2: Map<Id, MapRepr>,
    clean2: bool,
)
    requires
        types_resolve(a, b, kinds, clean),
        grown(kinds, clean, kinds2, clean2),
    ensures
        types_resolve(a, b, kinds2, clean2),
    decreases a, 0nat,
{
    if a.len() > 0 {
        lemma_type_grown(a.last(), b.last(), kinds, clean, kinds2, clean2);
        lemma_types_grown(a.drop_last(), b.drop_last(), kinds, clean, kinds2, clean2);
    }
}

/// Resolved types with spans stay resolved when the kinds grow.
pub proof fn lemma_stypes_grown(
    a: Seq<Spanned<Type>>,
    b: Seq<Spanned<Type>>,
    kinds: Map<Id, MapRepr>,
    clean: bool,
    kinds2: Map<Id, MapRepr>,
    clean2: bool,
)
    requires
        stypes_resolve(a, b, kinds, clean),
        grown(kinds, clean, kinds2, clean2),
    ensures
        stypes_resolve(a, b, kinds2, clean2),
    decreases a.len(),
{
    if a.len() > 0 {
        lemma_type_grown(a.last().value, b.last().value, kinds, clean, kinds2, clean2);
        lemma_stypes_grown(a.drop_last(), b.drop_last(), kinds, clean, kinds2, clean2);
    }
}

/// A resolved declaration stays resolved when the kinds grow.
pub proof fn lemma_typed_ident_grown(
    a: Spanned<TypedIdent>,
    b: Spanned<TypedIdent>,
    kinds: Map<Id, MapRepr>,
    clean: bool,
    kinds2: Map<Id, MapRepr>,
    clean2: bool,
)
    requires
        typed_ident_resolves(a, b, kinds, clean),
        grown(kinds, clean, kinds2, clean2),
    ensures
        typed_ident_resolves(a, b, kinds2, clean2),
{
    lemma_type_grown(a.value.ty.value, b.value.ty.value, kinds, clean, kinds2, clean2);
    lemma_ident_grown(
        b.value.ident.value,
        Role::Decl(MapRepr::Var),
        kinds,
        clean,
        kinds2,
        clean2,
    );
}

/// Resolved declarations stay resolved when the kinds grow.
pub proof fn lemma_typed_idents_grown(
    a: Seq<Spanned<TypedIdent>>,
    b: Seq<Spanned<TypedIdent>>,
    kinds: Map<Id, MapRepr>,
    clean: bool,
    kinds2: Map<Id, MapRepr>,
    clean2: bool,
)
    requires
        typed_idents_resolve(a, b, kinds, clean),
        grown(kinds, clean, kinds2, clean2),
    ensures
        typed_idents_resolve(a, b, kinds2, clean2),
    decreases a.len(),
{
    if a.len() > 0 {
        lemma_typed_ident_grown(a.last(), b.last(), kinds, clean, kinds2, clean2);
        lemma_typed_idents_grown(a.drop_last(), b.drop_last(), kinds, clean, kinds2, clean2);
    }
}

/// Resolved generic parameters stay resolved when the kinds grow.
pub proof fn lemma_generics_grown(
    a: Seq<Spanned<Ident>>,
    b: Seq<Spanned<Ident>>,
    kinds: Map<Id, MapRepr>,
    clean: bool,
    kinds2: Map<Id, MapRepr>,
    clean2: bool,
)
    requires
        generics_resolve(a, b, kinds, clean),
        grown(kinds, clean, kinds2, clean2),
    ensures
        generics_resolve(a, b, kinds2, clean2),
    decreases a.len(),
{
    if a.len() > 0 {
        lemma_ident_grown(
            b.last().value,
            Role::Decl(MapRepr::Type),
            kinds,
            clean,
            kinds2,
            clean2,
        );
        lemma_generics_grown(a.drop_last(), b.drop_last(), kinds, clean, kinds2, clean2);
    }
}

/// A resolved signature stays resolved when the kinds grow.
pub proof fn lemma_signature_grown(
    a: Signature,
    b: Signature,
    kinds: Map<Id, MapRepr>,
    clean: bool,
    kinds2: Map<Id, MapRepr>,
    clean2: bool,
)
    requires
        signature_resolves(a, b, kinds, clean),
        grown(kinds, clean, kinds2, clean2),
    ensures
        signature_resolves(a, b, kinds2, clean2),
{
    lemma_type_grown(a.return_ty.value, b.return_ty.value, kinds, clean, kinds2, clean2);
    lemma_typed_idents_grown(a.args.value@, b.args.value@, kinds, clean, kinds2, clean2);
    lemma_generics_grown(a.generics.value@, b.generics.value@, kinds, clean, kinds2, clean2);
}

/// A resolved expression stays resolved when the kinds grow.
pub proof fn lemma_expr_grown(
    a: HoistedExpr,
    b: HoistedExpr,
    kinds: Map<Id, MapRepr>,
    clean: bool,
    kinds2: Map<Id, MapRepr>,
    clean2: bool,
)
    requires
        expr_resolves(a, b, kinds, clean),
        grown(kinds, clean, kinds2, clean2),
    ensures
        expr_resolves(a, b, kinds2, clean2),
    decreases a, 1nat,
{
    match a {
        Expr::NumberLiteral(_) => {},
        Expr::Identifier(_) => {
            lemma_ident_grown(b->Identifier_0, Role::Value, kinds, clean, kinds2, clean2);
        },
        Expr::BinaryOp(l, op, r) => {
            lemma_expr_grown(l.value, b->BinaryOp_0.value, kinds, clean, kinds2, clean2);
            lemma_expr_grown(r.value, b->BinaryOp_2.value, kinds, clean, kinds2, clean2);
        },
        Expr::UnaryOp(op, v) => {
            lemma_expr_grown(v.value, b->UnaryOp_1.value, kinds, clean, kinds2, clean2);
        },
        Expr::Scope(s) => {
            lemma_scope_grown(s, b->Scope_0, kinds, clean, kinds2, clean2);
        },
        Expr::Call { callee, generics, args } => {
            lemma_expr_grown(callee.value, b->callee.value, kinds, clean, kinds2, clean2);
            match generics {
                Some(g) => {
                    lemma_stypes_grown(g@, b->generics->0@, kinds, clean, kinds2, clean2);
                },
                None => {},
            }
            lemma_exprs_grown(args@, b->args@, kinds, clean, kinds2, clean2);
        },
    }
}

/// A resolved expression with its span stays resolved when the kinds
/// grow.
pub proof fn lemma_sexpr_grown(
    a: Spanned<HoistedExpr>,
    b: Spanned<HoistedExpr>,
    kinds: Map<Id, MapRepr>,
    clean: bool,
    kinds2: Map<Id, MapRepr>,
    clean2: bool,
)
    requires
        sexpr_resolves(a, b, kinds, clean),
        grown(kinds, clean, kinds2, clean2),
    ensures
        sexpr_resolves(a, b, kinds2, clean2),
{
    lemma_expr_grown(a.value, b.value, kinds, clean, kinds2, clean2);
}

/// Resolved expressions stay resolved when the kinds grow.
pub proof fn lemma_exprs_grown(
    a: Seq<Spanned<HoistedExpr>>,
    b: Seq<Spanned<HoistedExpr>>,
    kinds: Map<Id, MapRepr>,
    clean: bool,
    kinds2: Map<Id, MapRepr>,
    clean2: bool,
)
    requires
        exprs_resolve(a, b, kinds, clean),
        grown(kinds, clean, kinds2, clean2),
    ensures
        exprs_resolve(a, b, kinds2, clean2),
    decreases a, 0nat,
{
    if a.len() > 0 {
        assert(sexpr_resolves(a.last(), b.last(), kinds, clean));
        lemma_expr_grown(a.last().value, b.last().value, kinds, clean, kinds2, clean2);
        lemma_exprs_grown(a.drop_last(), b.drop_last(), kinds, clean, kinds2, clean2);
        assert(sexpr_resolves(a.last(), b.last(), kinds2, clean2));
    }
}

/// A resolved statement stays resolved when the kinds grow.
pub proof fn lemma_stmt_grown(
    a: Spanned<HoistedStmt>,
    b: Spanned<HoistedStmt>,
    kinds: Map<Id, MapRepr>,
    clean: bool,
    kinds2: Map<Id, MapRepr>,
    clean2: bool,
)
    requires
        stmt_resolves(a, b, kinds, clean),
        grown(kinds, clean, kinds2, clean2),
    ensures
        stmt_resolves(a, b, kinds2, clean2),
    decreases a, 1nat,
{
    match a.value {
        Stmt::Create { ty_id, mutable, value } => {
            lemma_typed_ident_grown(ty_id, b.value->Create_ty_id, kinds, clean, kinds2, clean2);
            match value {
                Some(e) => {
                    lemma_expr_grown(
                        e.value,
                        b.value->Create_value->0.value,
                        kinds,
                        clean,
                        kinds2,
                        clean2,
                    );
                },
                None => {},
            }
        },
        Stmt::Assign { id, value } => {
            lemma_ident_grown(b.value->Assign_id.value, Role::Target, kinds, clean, kinds2, clean2);
            lemma_expr_grown(value.value, b.value->Assign_value.value, kinds, clean, kinds2, clean2);
        },
        Stmt::Func { id, signature, body } => {
            lemma_func_parts_grown(
                id,
                signature,
                body,
                b.value->Func_id,
                b.value->Func_signature,
                b.value->Func_body,
                kinds,
                clean,
                kinds2,
                clean2,
            );
        },
        Stmt::Return { value, is_yield } => {
            lemma_expr_grown(value.value, b.value->Return_value.value, kinds, clean, kinds2, clean2);
        },
    }
}

/// Resolved statements stay resolved when the kinds grow.
pub proof fn lemma_stmts_grown(
    a: Seq<Spanned<HoistedStmt>>,
    b: Seq<Spanned<HoistedStmt>>,
    kinds: Map<Id, MapRepr>,
    clean: bool,
    kinds2: Map<Id, MapRepr>,
    clean2: bool,
)
    requires
        stmts_resolve(a, b, kinds, clean),
        grown(kinds, clean, kinds2, clean2),
    ensures
        stmts_resolve(a, b, kinds2, clean2),
    decreases a, 0nat,
{
    if a.len() > 0 {
        lemma_stmt_grown(a.last(), b.last(), kinds, clean, kinds2, clean2);
        lemma_stmts_grown(a.drop_last(), b.drop_last(), kinds, clean, kinds2, clean2);
    }
}

/// The resolved parts of a function stay resolved when the kinds grow.
pub proof fn lemma_func_parts_grown(
    id: Spanned<Ident>,
    signature: Signature,
    body: Option<Spanned<HoistedScope>>,
    id2: Spanned<Ident>,
    signature2: Signature,
    body2: Option<Spanned<HoistedScope>>,
    kinds: Map<Id, MapRepr>,
    clean: bool,
    kinds2: Map<Id, MapRepr>,
    clean2: bool,
)
    requires
        func_parts_resolve(id, signature, body, id2, signature2, body2, kinds, clean),
        grown(kinds, clean, kinds2, clean2),
    ensures
        func_parts_resolve(id, signature, body, id2, signature2, body2, kinds2, clean2),
    decreases body, 1nat,
{
    lemma_ident_grown(id2.value, Role::Decl(MapRepr::Func), kinds, clean, kinds2, clean2);
    lemma_signature_grown(signature, signature2, kinds, clean, kinds2, clean2);
    lemma_body_grown(body, body2, kinds, clean, kinds2, clean2);
}

/// A resolved body stays resolved when the kinds grow.
pub proof fn lemma_body_grown(
    body: Option<Spanned<HoistedScope>>,
    body2: Option<Spanned<HoistedScope>>,
    kinds: Map<Id, MapRepr>,
    clean: bool,
    kinds2: Map<Id, MapRepr>,
    clean2: bool,
)
    requires
        body_resolves(body, body2, kinds, clean),
        grown(kinds, clean, kinds2, clean2),
    ensures
        body_resolves(body, body2, kinds2, clean2),
    decreases body, 0nat,
{
    match body {
        Some(s) => {
            lemma_scope_grown(s.value, body2->0.value, kinds, clean, kinds2, clean2);
        },
        None => {},
    }
}

/// Resolved functions stay resolved when the kinds grow.
pub proof fn lemma_funcs_grown(
    a: Seq<(Ident, Spanned<HoistedFunc>)>,
    b: Seq<(Ident, Spanned<HoistedFunc>)>,
    kinds: Map<Id, MapRepr>,
    clean: bool,
    kinds2: Map<Id, MapRepr>,
    clean2: bool,
)
    requires
        funcs_resolve(a, b, kinds, clean),
        grown(kinds, clean, kinds2, clean2),
    ensures
        funcs_resolve(a, b, kinds2, clean2),
    decreases a, 0nat,
{
    if a.len() > 0 {
        let f = a.last().1.value;
        let g = b.last().1.value;
        assert(func_resolves(f, g, kinds, clean));
        lemma_func_parts_grown(
            f.id,
            f.signature,
            f.body,
            g.id,
            g.signature,
            g.body,
            kinds,
            clean,
            kinds2,
            clean2,
        );
        lemma_funcs_grown(a.drop_last(), b.drop_last(), kinds, clean, kinds2, clean2);
        assert(func_resolves(f, g, kinds2, clean2));
    }
}

/// A resolved scope stays resolved when the kinds grow.
pub proof fn lemma_scope_grown(
    a: HoistedScope,
    b: HoistedScope,
    kinds: Map<Id, MapRepr>,
    clean: bool,
    kinds2: Map<Id, MapRepr>,
    clean2: bool,
)
    requires
        scope_resolves(a, b, kinds, clean),
        grown(kinds, clean, kinds2, clean2),
    ensures
        scope_resolves(a, b, kinds2, clean2),
    decreases a, 0nat,
{
    lemma_stmts_grown(a.stmts@, b.stmts@, kinds, clean, kinds2, clean2);
    lemma_funcs_grown(a.data.funcs@, b.data.funcs@, kinds, clean, kinds2, clean2);
}

/// A bound name is the wildcard or a number, and the number is 0 or has
/// a kind; where nothing was reported it is not 0, and its kind may play
/// the part.
pub proof fn lemma_bound_name(out: Ident, role: Role, kinds: Map<Id, MapRepr>, clean: bool)
    requires
        ident_bound(out, role, kinds, clean),
    ensures
        out is Discarded || out is Resolved,
        out matches Ident::Resolved(id) ==> id == 0 || kinds.contains_key(id),
        out matches Ident::Resolved(id) ==> (clean ==> id != 0 && role_allows(role, kinds[id])),
{
}

} // verus!
