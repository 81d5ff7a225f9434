//! Name resolution: every binding site gets a number of its own, and
//! every name becomes the number of the binding it refers to.

pub mod mappings;
pub mod relation;
pub mod spec;

use crate::common::diagnostics::{
    continues, discarded_ident, discarded_ident_diagnostic, lemma_appended, lemma_continues,
    lemma_continues_self, nonexistent_item, nonexistent_item_diagnostic, out_of_ids,
    out_of_ids_diagnostic, type_mismatch, type_mismatch_diagnostic, Diagnostics, DiagnosticView,
};
use crate::common::expr::Expr;
use crate::common::func::{
    spanned_idents_view, spanned_typed_idents_view, spanned_types_view, Func, Signature,
};
use crate::common::ident::{ident_text, Id, Ident, IdentView};
use crate::common::span::{Span, Spanned};
use crate::common::stmt::Stmt;
use crate::common::typed_ident::TypedIdent;
use crate::common::types::{lemma_types_view_push, types_view, Type};
use crate::hoister::{HoistedExpr, HoistedFunc, HoistedScope, HoistedScopeData, HoistedStmt, Var};
use crate::hoister::view::{
    body_view, created, exprs_view, funcs_view, lemma_created_view, lemma_exprs_view_push,
    lemma_funcs_view_push, lemma_stmts_view_push, scope_view, sexpr_view, stmt_view, stmts_view,
    vars_table_view,
};
use crate::resolver::mappings::{paired, Mappings, MapRepr};
use crate::resolver::relation::{
    body_resolves, exprs_resolve, extends, func_resolves, funcs_resolve, generics_resolve, grown,
    ident_bound, lemma_body_grown, lemma_exprs_grown, lemma_funcs_grown, lemma_generics_grown,
    lemma_ident_grown, lemma_scope_grown, lemma_sexpr_grown, lemma_signature_grown,
    lemma_stmt_grown, lemma_stmts_grown, lemma_stypes_grown, lemma_type_grown,
    lemma_typed_ident_grown, lemma_typed_idents_grown, lemma_types_grown, role_allows,
    scope_resolves, sexpr_resolves, signature_resolves, stmt_resolves, stmts_resolve,
    stypes_resolve, type_resolves, typed_ident_resolves, typed_idents_resolve, types_resolve, Role,
};
use crate::resolver::spec::{
    expr_step, exprs_step, func_parts_step, funcs_step, generics_step, make_funcs_step,
    make_vars_step, new_step, params_step, resolve_step, scope_step, signature_step, stmt_step,
    stmts_step, stypes_step, type_step, typed_ident_step, types_step, use_step, wanted_kind,
    RState, Step,
};
use vstd::prelude::*;

verus! {

/// The numbers in use are the ones given out: every name in sight has a
/// kind, and every number with a kind is between 1 and `counter`.
pub open spec fn coherent(m: Mappings, counter: Id) -> bool {
    &&& m.wf()
    &&& forall|k: Id| #[trigger] m.names().contains_key(k) ==> m.kinds().contains_key(k)
    &&& forall|k: Id| #[trigger] m.kinds().contains_key(k) ==> 1 <= k <= counter
}

/// What is known, as the specification of resolution sees it.
pub open spec fn rstate(m: Mappings, counter: Id) -> RState {
    RState { names: m.names(), kinds: m.kinds(), counter }
}

/// The view of a name with its span.
pub open spec fn sident_view(i: Spanned<Ident>) -> Spanned<IdentView> {
    Spanned { span: i.span, value: i.value@ }
}

/// Whether a call did what `step` says: it returned `out`, left `m` and
/// `c` known, and appended what the step reports.
pub open spec fn stepped<T>(
    step: Step<T>,
    out: T,
    m: Mappings,
    c: Id,
    s0: Seq<DiagnosticView>,
    s1: Seq<DiagnosticView>,
) -> bool {
    &&& step.out == out
    &&& step.st =~= rstate(m, c)
    &&& s1 =~= s0 + step.reports
}

/// One step of the resolver: the numbers stay coherent, no number is
/// taken back, no kind changes, and the diagnostics only grow.
pub open spec fn advanced(
    m0: Mappings,
    c0: Id,
    s0: Seq<DiagnosticView>,
    m1: Mappings,
    c1: Id,
    s1: Seq<DiagnosticView>,
) -> bool {
    &&& coherent(m1, c1)
    &&& c0 <= c1
    &&& extends(m1.kinds(), m0.kinds())
    &&& continues(s1, s0)
}

/// Steps compose; and where nothing was reported over both, nothing was
/// in either.
pub proof fn lemma_advanced(
    m0: Mappings,
    c0: Id,
    s0: Seq<DiagnosticView>,
    m1: Mappings,
    c1: Id,
    s1: Seq<DiagnosticView>,
    m2: Mappings,
    c2: Id,
    s2: Seq<DiagnosticView>,
)
    requires
        advanced(m0, c0, s0, m1, c1, s1),
        advanced(m1, c1, s1, m2, c2, s2),
    ensures
        advanced(m0, c0, s0, m2, c2, s2),
        grown(m1.kinds(), s1 == s0, m2.kinds(), s2 == s0),
        grown(m2.kinds(), s2 == s1, m2.kinds(), s2 == s0),
{
    lemma_continues(s0, s1, s2);
    assert forall|k: Id| #[trigger] m0.kinds().contains_key(k) implies m2.kinds().contains_key(k)
        && m2.kinds()[k] == m0.kinds()[k] by {
        assert(m1.kinds().contains_key(k));
    }
}

/// The next number, or 0 with an error at `span` if none is left.
pub fn count(counter: &mut Id, span: Span, sink: &mut Diagnostics) -> (id: Id)
    ensures
        *old(counter) < usize::MAX ==> id == *old(counter) + 1 && *final(counter) == id && final(sink)@ == old(sink)@,
        *old(counter) == usize::MAX ==> id == 0 && *final(counter) == *old(counter) && final(sink)@
            == old(sink)@.push(out_of_ids_diagnostic(span)),
{
    if *counter == usize::MAX {
        out_of_ids(sink, span);
        0
    } else {
        *counter = *counter + 1;
        *counter
    }
}

/// The number that a use of `name` resolves to: the number of the name if
/// it is in sight, else 0.
pub open spec fn use_number(name: IdentView, m: Mappings) -> Id {
    if !(name is Discarded) && m.knows(name) {
        m.number_of(name)
    } else {
        0
    }
}

/// What a use of `ident` in the part `role` reports: a wildcard where a
/// value is needed, a name that is not in sight, or a name of a kind that
/// may not play the part.
pub open spec fn use_report(ident: Spanned<Ident>, role: Role, m: Mappings) -> Seq<DiagnosticView> {
    if ident.value@ is Discarded {
        seq![discarded_ident_diagnostic(ident.span)]
    } else if !m.knows(ident.value@) {
        seq![nonexistent_item_diagnostic(ident.span, ident_text(ident.value@))]
    } else {
        let kind = m.kinds()[m.number_of(ident.value@)];
        if role_allows(role, kind) {
            Seq::empty()
        } else {
            seq![type_mismatch_diagnostic(ident.span, kind, wanted_kind(role))]
        }
    }
}

/// Whether a name of kind `kind` may play the part `role`.
pub fn allows(role: Role, kind: MapRepr) -> (ok: bool)
    ensures
        ok == role_allows(role, kind),
{
    match role {
        Role::Value => match kind {
            MapRepr::Type => false,
            _ => true,
        },
        Role::Target => match kind {
            MapRepr::Var => true,
            _ => false,
        },
        Role::TypeName => match kind {
            MapRepr::Type => true,
            _ => false,
        },
        Role::Decl(k) => kind == k,
    }
}

/// The kind a name must have to play the part `role`.
pub fn wanted(role: Role) -> (kind: MapRepr)
    ensures
        kind == wanted_kind(role),
{
    match role {
        Role::Value => MapRepr::Var,
        Role::Target => MapRepr::Var,
        Role::TypeName => MapRepr::Type,
        Role::Decl(k) => k,
    }
}

/// Resolves a use of a name: the number of the name in sight. A wildcard
/// and a name not in sight are reported and become the number 0; a name
/// of a kind that may not play the part is reported and keeps its number.
pub fn resolve_must_exist(
    ident: &Spanned<Ident>,
    role: Role,
    mappings: &Mappings,
    counter: &Id,
    sink: &mut Diagnostics,
) -> (res: Spanned<Ident>)
    requires
        coherent(*mappings, *counter),
        !(role is Decl),
    ensures
        res.span == ident.span,
        res.value == Ident::Resolved(use_number(ident.value@, *mappings)),
        final(sink)@ == old(sink)@ + use_report(*ident, role, *mappings),
        stepped(
            use_step(*ident, role, rstate(*mappings, *counter)),
            sident_view(res),
            *mappings,
            *counter,
            old(sink)@,
            final(sink)@,
        ),
        continues(final(sink)@, old(sink)@),
        ident_bound(res.value, role, mappings.kinds(), final(sink)@ == old(sink)@),
{
    proof {
        reveal(use_step);
        lemma_appended(old(sink)@, use_report(*ident, role, *mappings));
    }
    if ident.value.is_discarded() {
        discarded_ident(sink, ident.span);
        assert(sink@ =~= old(sink)@ + use_report(*ident, role, *mappings));
        return Spanned { span: ident.span, value: Ident::Resolved(0) };
    }
    match mappings.get_by_ident(&ident.value) {
        Some(id) => {
            let id = *id;
            match mappings.get_repr(&id) {
                Some(kind) => {
                    if !allows(role, kind) {
                        type_mismatch(sink, ident.span, kind, wanted(role));
                    }
                },
                None => {},
            }
            assert(sink@ =~= old(sink)@ + use_report(*ident, role, *mappings));
            Spanned { span: ident.span, value: Ident::Resolved(id) }
        },
        None => {
            nonexistent_item(sink, ident.span, &ident.value);
            assert(sink@ =~= old(sink)@ + use_report(*ident, role, *mappings));
            Spanned { span: ident.span, value: Ident::Resolved(0) }
        },
    }
}

/// Resolves a declaration of a name as a `repr`: a new number, under which
/// the name is in sight from now on, in place of what bore the name
/// before. The wildcard declares nothing and stays. If no number is left,
/// that is reported and the name becomes the number 0.
pub fn resolve_make_new(
    ident: &Spanned<Ident>,
    repr: MapRepr,
    mappings: &mut Mappings,
    counter: &mut Id,
    sink: &mut Diagnostics,
) -> (res: Spanned<Ident>)
    requires
        coherent(*old(mappings), *old(counter)),
    ensures
        advanced(
            *old(mappings),
            *old(counter),
            old(sink)@,
            *final(mappings),
            *final(counter),
            final(sink)@,
        ),
        res.span == ident.span,
        stepped(
            new_step(*ident, repr, rstate(*old(mappings), *old(counter))),
            sident_view(res),
            *final(mappings),
            *final(counter),
            old(sink)@,
            final(sink)@,
        ),
        ident_bound(
            res.value,
            Role::Decl(repr),
            final(mappings).kinds(),
            final(sink)@ == old(sink)@,
        ),
        ident.value@ is Discarded ==> res.value == Ident::Discarded && final(mappings).names()
            == old(mappings).names() && final(mappings).kinds() == old(mappings).kinds() && *final(counter) == *old(counter) && final(sink)@ == old(sink)@,
        !(ident.value@ is Discarded) && *old(counter) < usize::MAX ==> res.value
            == Ident::Resolved((*old(counter) + 1) as usize) && *final(counter) == *old(counter) + 1
            && final(mappings).names() == paired(
            old(mappings).names(),
            (*old(counter) + 1) as usize,
            ident.value@,
        ) && final(mappings).kinds() == old(mappings).kinds().insert(
            (*old(counter) + 1) as usize,
            repr,
        ) && final(sink)@ == old(sink)@,
        !(ident.value@ is Discarded) && *old(counter) == usize::MAX ==> res.value
            == Ident::Resolved(0) && final(mappings).names() == old(mappings).names() && final(mappings).kinds() == old(mappings).kinds() && final(sink)@ == old(sink)@.push(
            out_of_ids_diagnostic(ident.span),
        ),
{
    proof {
        reveal(new_step);
        lemma_continues_self(old(sink)@);
        lemma_appended(old(sink)@, seq![out_of_ids_diagnostic(ident.span)]);
    }
    if ident.value.is_discarded() {
        return Spanned { span: ident.span, value: Ident::Discarded };
    }
    let id = count(counter, ident.span, sink);
    if id == 0 {
        assert(sink@ =~= old(sink)@ + seq![out_of_ids_diagnostic(ident.span)]);
        return Spanned { span: ident.span, value: Ident::Resolved(0) };
    }
    mappings.insert(id, ident.value.clone(), repr);
    Spanned { span: ident.span, value: Ident::Resolved(id) }
}

/// A step that changes nothing but the diagnostics.
pub proof fn lemma_reported(m: Mappings, c: Id, s0: Seq<DiagnosticView>, s1: Seq<DiagnosticView>)
    requires
        coherent(m, c),
        continues(s1, s0),
    ensures
        advanced(m, c, s0, m, c, s1),
{
}

/// Resolves the names in a type that stands at `span`.
pub fn resolve_type(
    ty: &Type,
    span: Span,
    mappings: &Mappings,
    counter: &Id,
    sink: &mut Diagnostics,
) -> (res: Type)
    requires
        coherent(*mappings, *counter),
    ensures
        type_resolves(*ty, res, mappings.kinds(), final(sink)@ == old(sink)@),
        continues(final(sink)@, old(sink)@),
        stepped(
            type_step(*ty, span, rstate(*mappings, *counter)),
            res@,
            *mappings,
            *counter,
            old(sink)@,
            final(sink)@,
        ),
    decreases ty,
{
    let ghost s0 = sink@;
    let ghost kinds = mappings.kinds();
    let ghost st = rstate(*mappings, *counter);
    proof {
        reveal(type_step);
        lemma_continues_self(s0);
        assert(s0 =~= s0 + Seq::<DiagnosticView>::empty());
    }
    match ty {
        Type::User(name) => {
            let wrapped = Spanned { span, value: name.clone() };
            let r = resolve_must_exist(&wrapped, Role::TypeName, mappings, counter, sink);
            proof {
                assert(use_step(wrapped, Role::TypeName, st) == use_step(
                    Spanned { span, value: *name },
                    Role::TypeName,
                    st,
                )) by {
                    reveal(use_step);
                }
            }
            Type::User(r.value)
        },
        Type::BuiltIn(b) => Type::BuiltIn(*b),
        Type::Generic(base, args) => {
            let b2 = resolve_type(&**base, span, mappings, counter, sink);
            let ghost s1 = sink@;
            let mut out: Vec<Type> = Vec::new();
            let mut i: usize = 0;
            proof {
                assert(args@.take(0) =~= Seq::empty());
                lemma_continues_self(s1);
                assert(types_view(out@) =~= Seq::<crate::common::types::TypeView>::empty());
                assert(s1 =~= s1 + Seq::<DiagnosticView>::empty());
            }
            while i < args.len()
                invariant
                    forall|j: int| 0 <= j < args.len() ==> decreases_to!(ty => #[trigger] args[j]),
                    coherent(*mappings, *counter),
                    kinds == mappings.kinds(),
                    st == rstate(*mappings, *counter),
                    i <= args.len(),
                    out.len() == i,
                    continues(s1, s0),
                    continues(sink@, s1),
                    types_resolve(args@.take(i as int), out@, kinds, sink@ == s1),
                    types_view(out@) == types_step(args@.take(i as int), span, st).out,
                    sink@ == s1 + types_step(args@.take(i as int), span, st).reports,
                decreases args.len() - i,
            {
                let ghost before = sink@;
                let ghost prev = out@;
                let t = resolve_type(&args[i], span, mappings, counter, sink);
                out.push(t);
                proof {
                    let next = args@.take(i + 1);
                    assert(next.drop_last() =~= args@.take(i as int));
                    assert(out@.drop_last() =~= prev);
                    assert(next.last() == args[i as int]);
                    reveal(type_step);
                    lemma_types_view_push(prev, t);
                    assert(out@ =~= prev.push(t));
                    assert(sink@ =~= s1 + types_step(next, span, st).reports);
                    lemma_continues(s1, before, sink@);
                    lemma_types_grown(
                        args@.take(i as int),
                        prev,
                        kinds,
                        before == s1,
                        kinds,
                        sink@ == s1,
                    );
                    lemma_type_grown(args[i as int], t, kinds, sink@ == before, kinds, sink@ == s1);
                }
                i += 1;
            }
            proof {
                assert(args@.take(i as int) =~= args@);
                lemma_continues(s0, s1, sink@);
                lemma_type_grown(**base, b2, kinds, s1 == s0, kinds, sink@ == s0);
                lemma_types_grown(args@, out@, kinds, sink@ == s1, kinds, sink@ == s0);
                reveal(type_step);
                assert(sink@ =~= s0 + type_step(*ty, span, st).reports);
            }
            Type::Generic(Box::new(b2), out)
        },
        Type::Inferred => Type::Inferred,
    }
}

/// Resolves the names in types with spans.
pub fn resolve_types(
    types: &Vec<Spanned<Type>>,
    mappings: &Mappings,
    counter: &Id,
    sink: &mut Diagnostics,
) -> (out: Vec<Spanned<Type>>)
    requires
        coherent(*mappings, *counter),
    ensures
        stypes_resolve(types@, out@, mappings.kinds(), final(sink)@ == old(sink)@),
        continues(final(sink)@, old(sink)@),
        stepped(
            stypes_step(types@, rstate(*mappings, *counter)),
            spanned_types_view(out@),
            *mappings,
            *counter,
            old(sink)@,
            final(sink)@,
        ),
{
    let ghost s0 = sink@;
    let ghost kinds = mappings.kinds();
    let ghost st = rstate(*mappings, *counter);
    let mut out: Vec<Spanned<Type>> = Vec::new();
    let mut i: usize = 0;
    proof {
        assert(types@.take(0) =~= Seq::empty());
        lemma_continues_self(s0);
        assert(spanned_types_view(out@) =~= stypes_step(types@.take(0), st).out);
        assert(s0 =~= s0 + Seq::<DiagnosticView>::empty());
    }
    while i < types.len()
        invariant
            coherent(*mappings, *counter),
            kinds == mappings.kinds(),
            st == rstate(*mappings, *counter),
            i <= types.len(),
            out.len() == i,
            continues(sink@, s0),
            stypes_resolve(types@.take(i as int), out@, kinds, sink@ == s0),
            spanned_types_view(out@) == stypes_step(types@.take(i as int), st).out,
            sink@ == s0 + stypes_step(types@.take(i as int), st).reports,
        decreases types.len() - i,
    {
        let ghost before = sink@;
        let ghost prev = out@;
        let t = resolve_type(&types[i].value, types[i].span, mappings, counter, sink);
        out.push(Spanned { span: types[i].span, value: t });
        proof {
            let next = types@.take(i + 1);
            assert(next.drop_last() =~= types@.take(i as int));
            assert(out@.drop_last() =~= prev);
            assert(next.last() == types[i as int]);
            lemma_continues(s0, before, sink@);
            lemma_stypes_grown(
                types@.take(i as int),
                prev,
                kinds,
                before == s0,
                kinds,
                sink@ == s0,
            );
            lemma_type_grown(types[i as int].value, t, kinds, sink@ == before, kinds, sink@ == s0);
            assert(spanned_types_view(out@) =~= stypes_step(next, st).out);
            assert(sink@ =~= s0 + stypes_step(next, st).reports);
        }
        i += 1;
    }
    assert(types@.take(i as int) =~= types@);
    out
}

/// Resolves a declaration: the type first, then the name as a new
/// variable.
pub fn resolve_typed_ident(
    ti: &Spanned<TypedIdent>,
    mappings: &mut Mappings,
    counter: &mut Id,
    sink: &mut Diagnostics,
) -> (res: Spanned<TypedIdent>)
    requires
        coherent(*old(mappings), *old(counter)),
    ensures
        advanced(
            *old(mappings),
            *old(counter),
            old(sink)@,
            *final(mappings),
            *final(counter),
            final(sink)@,
        ),
        typed_ident_resolves(*ti, res, final(mappings).kinds(), final(sink)@ == old(sink)@),
        stepped(
            typed_ident_step(*ti, rstate(*old(mappings), *old(counter))),
            Spanned { span: res.span, value: res.value@ },
            *final(mappings),
            *final(counter),
            old(sink)@,
            final(sink)@,
        ),
{
    let ghost m0 = *mappings;
    let ghost c0 = *counter;
    let ghost s0 = sink@;
    let ty = resolve_type(&ti.value.ty.value, ti.value.ty.span, mappings, counter, sink);
    let ghost s1 = sink@;
    let ident = resolve_make_new(&ti.value.ident, MapRepr::Var, mappings, counter, sink);
    proof {
        lemma_reported(m0, c0, s0, s1);
        lemma_advanced(m0, c0, s0, m0, c0, s1, *mappings, *counter, sink@);
        lemma_type_grown(
            ti.value.ty.value,
            ty,
            m0.kinds(),
            s1 == s0,
            mappings.kinds(),
            sink@ == s0,
        );
        lemma_ident_grown(
            ident.value,
            Role::Decl(MapRepr::Var),
            mappings.kinds(),
            sink@ == s1,
            mappings.kinds(),
            sink@ == s0,
        );
        reveal(typed_ident_step);
        assert(sink@ =~= s0 + typed_ident_step(*ti, rstate(m0, c0)).reports);
    }
    Spanned {
        span: ti.span,
        value: TypedIdent { ty: Spanned { span: ti.value.ty.span, value: ty }, ident },
    }
}

/// Resolves a signature: the generic parameters as new types, the
/// arguments as new variables, then the return type. The new names stay
/// in sight, for the body.
pub fn resolve_signature(
    signature: &Signature,
    mappings: &mut Mappings,
    counter: &mut Id,
    sink: &mut Diagnostics,
) -> (res: Signature)
    requires
        coherent(*old(mappings), *old(counter)),
    ensures
        advanced(
            *old(mappings),
            *old(counter),
            old(sink)@,
            *final(mappings),
            *final(counter),
            final(sink)@,
        ),
        signature_resolves(*signature, res, final(mappings).kinds(), final(sink)@ == old(sink)@),
        stepped(
            signature_step(*signature, rstate(*old(mappings), *old(counter))),
            res@,
            *final(mappings),
            *final(counter),
            old(sink)@,
            final(sink)@,
        ),
{
    let ghost m0 = *mappings;
    let ghost c0 = *counter;
    let ghost s0 = sink@;
    let ghost st0 = rstate(m0, c0);
    let generics = &signature.generics.value;
    let mut resolved_generics: Vec<Spanned<Ident>> = Vec::new();
    let mut i: usize = 0;
    proof {
        assert(generics@.take(0) =~= Seq::empty());
        lemma_continues_self(s0);
        assert(spanned_idents_view(resolved_generics@) =~= generics_step(
            generics@.take(0),
            st0,
        ).out);
        assert(s0 =~= s0 + Seq::<DiagnosticView>::empty());
    }
    while i < generics.len()
        invariant
            i <= generics.len(),
            resolved_generics.len() == i,
            advanced(m0, c0, s0, *mappings, *counter, sink@),
            stepped(
                generics_step(generics@.take(i as int), st0),
                spanned_idents_view(resolved_generics@),
                *mappings,
                *counter,
                s0,
                sink@,
            ),
            generics_resolve(
                generics@.take(i as int),
                resolved_generics@,
                mappings.kinds(),
                sink@ == s0,
            ),
        decreases generics.len() - i,
    {
        let ghost m1 = *mappings;
        let ghost c1 = *counter;
        let ghost s1 = sink@;
        let ghost prev = resolved_generics@;
        let g = resolve_make_new(&generics[i], MapRepr::Type, mappings, counter, sink);
        resolved_generics.push(g);
        proof {
            let next = generics@.take(i + 1);
            assert(next.drop_last() =~= generics@.take(i as int));
            assert(resolved_generics@.drop_last() =~= prev);
            assert(next.last() == generics[i as int]);
            lemma_advanced(m0, c0, s0, m1, c1, s1, *mappings, *counter, sink@);
            lemma_generics_grown(
                generics@.take(i as int),
                prev,
                m1.kinds(),
                s1 == s0,
                mappings.kinds(),
                sink@ == s0,
            );
            lemma_ident_grown(
                g.value,
                Role::Decl(MapRepr::Type),
                mappings.kinds(),
                sink@ == s1,
                mappings.kinds(),
                sink@ == s0,
            );
            let step = generics_step(next, st0);
            assert(spanned_idents_view(resolved_generics@) =~= step.out);
            assert(sink@ =~= s0 + step.reports);
        }
        i += 1;
    }
    assert(generics@.take(i as int) =~= generics@);
    let ghost m_g = *mappings;
    let ghost s_g = sink@;
    let ghost st_g = rstate(*mappings, *counter);
    let args = &signature.args.value;
    let mut resolved_args: Vec<Spanned<TypedIdent>> = Vec::new();
    let mut k: usize = 0;
    proof {
        assert(args@.take(0) =~= Seq::empty());
        lemma_continues_self(s_g);
        assert(spanned_typed_idents_view(resolved_args@) =~= params_step(args@.take(0), st_g).out);
        assert(s_g =~= s_g + Seq::<DiagnosticView>::empty());
    }
    while k < args.len()
        invariant
            k <= args.len(),
            resolved_args.len() == k,
            advanced(m0, c0, s0, *mappings, *counter, sink@),
            stepped(
                params_step(args@.take(k as int), st_g),
                spanned_typed_idents_view(resolved_args@),
                *mappings,
                *counter,
                s_g,
                sink@,
            ),
            extends(mappings.kinds(), m_g.kinds()),
            continues(sink@, s_g),
            continues(s_g, s0),
            typed_idents_resolve(
                args@.take(k as int),
                resolved_args@,
                mappings.kinds(),
                sink@ == s0,
            ),
        decreases args.len() - k,
    {
        let ghost m1 = *mappings;
        let ghost c1 = *counter;
        let ghost s1 = sink@;
        let ghost prev = resolved_args@;
        let a = resolve_typed_ident(&args[k], mappings, counter, sink);
        resolved_args.push(a);
        proof {
            let next = args@.take(k + 1);
            assert(next.drop_last() =~= args@.take(k as int));
            assert(resolved_args@.drop_last() =~= prev);
            assert(next.last() == args[k as int]);
            lemma_advanced(m0, c0, s0, m1, c1, s1, *mappings, *counter, sink@);
            lemma_continues(s_g, s1, sink@);
            assert forall|x: Id| #[trigger] m_g.kinds().contains_key(x) implies mappings.kinds().contains_key(
                x,
            ) && mappings.kinds()[x] == m_g.kinds()[x] by {
                assert(m1.kinds().contains_key(x));
            }
            lemma_typed_idents_grown(
                args@.take(k as int),
                prev,
                m1.kinds(),
                s1 == s0,
                mappings.kinds(),
                sink@ == s0,
            );
            lemma_typed_ident_grown(
                args[k as int],
                a,
                mappings.kinds(),
                sink@ == s1,
                mappings.kinds(),
                sink@ == s0,
            );
            let step = params_step(next, st_g);
            assert(spanned_typed_idents_view(resolved_args@) =~= step.out);
            assert(sink@ =~= s_g + step.reports);
        }
        k += 1;
    }
    assert(args@.take(k as int) =~= args@);
    let ghost m2 = *mappings;
    let ghost c2 = *counter;
    let ghost s2 = sink@;
    let ret = resolve_type(
        &signature.return_ty.value,
        signature.return_ty.span,
        mappings,
        counter,
        sink,
    );
    proof {
        lemma_reported(m2, c2, s2, sink@);
        lemma_advanced(m0, c0, s0, m2, c2, s2, m2, c2, sink@);
        lemma_continues(s0, s_g, s2);
        lemma_continues(s_g, s2, sink@);
        lemma_continues(s0, s_g, sink@);
        lemma_generics_grown(
            generics@,
            resolved_generics@,
            m_g.kinds(),
            s_g == s0,
            m2.kinds(),
            sink@ == s0,
        );
        lemma_typed_idents_grown(
            args@,
            resolved_args@,
            m2.kinds(),
            s2 == s0,
            m2.kinds(),
            sink@ == s0,
        );
        lemma_type_grown(
            signature.return_ty.value,
            ret,
            m2.kinds(),
            sink@ == s2,
            m2.kinds(),
            sink@ == s0,
        );
        reveal(signature_step);
        assert(sink@ =~= s0 + signature_step(*signature, st0).reports);
    }
    Signature {
        attribs: signature.attribs,
        linkage: signature.linkage,
        return_ty: Spanned { span: signature.return_ty.span, value: ret },
        args: Spanned { span: signature.args.span, value: resolved_args },
        generics: Spanned { span: signature.generics.span, value: resolved_generics },
    }
}

/// Resolves a binary operation: the operands from left to right.
fn resolve_binary(
    e: &Spanned<HoistedExpr>,
    mappings: &mut Mappings,
    counter: &mut Id,
    sink: &mut Diagnostics,
) -> (res: Spanned<HoistedExpr>)
    requires
        coherent(*old(mappings), *old(counter)),
        e.value is BinaryOp,
    ensures
        advanced(
            *old(mappings),
            *old(counter),
            old(sink)@,
            *final(mappings),
            *final(counter),
            final(sink)@,
        ),
        final(mappings).names() == old(mappings).names(),
        sexpr_resolves(*e, res, final(mappings).kinds(), final(sink)@ == old(sink)@),
        stepped(
            expr_step(*e, rstate(*old(mappings), *old(counter))),
            sexpr_view(res),
            *final(mappings),
            *final(counter),
            old(sink)@,
            final(sink)@,
        ),
    decreases e, 0nat,
{
    let ghost m0 = *mappings;
    let ghost c0 = *counter;
    let ghost s0 = sink@;
    let ghost st0 = rstate(m0, c0);
    match &e.value {
        Expr::BinaryOp(l, op, r) => {
            let l2 = resolve_expr(&**l, mappings, counter, sink);
            let ghost m1 = *mappings;
            let ghost c1 = *counter;
            let ghost s1 = sink@;
            let r2 = resolve_expr(&**r, mappings, counter, sink);
            proof {
                lemma_advanced(m0, c0, s0, m1, c1, s1, *mappings, *counter, sink@);
                lemma_sexpr_grown(**l, l2, m1.kinds(), s1 == s0, mappings.kinds(), sink@ == s0);
                lemma_sexpr_grown(
                    **r,
                    r2,
                    mappings.kinds(),
                    sink@ == s1,
                    mappings.kinds(),
                    sink@ == s0,
                );
                assert(sink@ =~= s0 + expr_step(*e, st0).reports);
            }
            Spanned { span: e.span, value: Expr::BinaryOp(Box::new(l2), *op, Box::new(r2)) }
        },
        _ => vstd::pervasive::unreached(),
    }
}

/// Resolves a call: the callee, the types between angle brackets, then
/// the arguments from left to right.
fn resolve_call(
    e: &Spanned<HoistedExpr>,
    mappings: &mut Mappings,
    counter: &mut Id,
    sink: &mut Diagnostics,
) -> (res: Spanned<HoistedExpr>)
    requires
        coherent(*old(mappings), *old(counter)),
        e.value is Call,
    ensures
        advanced(
            *old(mappings),
            *old(counter),
            old(sink)@,
            *final(mappings),
            *final(counter),
            final(sink)@,
        ),
        final(mappings).names() == old(mappings).names(),
        sexpr_resolves(*e, res, final(mappings).kinds(), final(sink)@ == old(sink)@),
        stepped(
            expr_step(*e, rstate(*old(mappings), *old(counter))),
            sexpr_view(res),
            *final(mappings),
            *final(counter),
            old(sink)@,
            final(sink)@,
        ),
    decreases e, 0nat,
{
    let ghost m0 = *mappings;
    let ghost c0 = *counter;
    let ghost s0 = sink@;
    let ghost st0 = rstate(m0, c0);
    match &e.value {
        Expr::Call { callee, generics, args } => {
            let c2 = resolve_expr(&**callee, mappings, counter, sink);
            let ghost m1 = *mappings;
            let ghost c1 = *counter;
            let ghost s1 = sink@;
            let g2 = match generics {
                Some(g) => Some(resolve_types(g, mappings, counter, sink)),
                None => {
                    proof {
                        lemma_continues_self(s1);
                    }
                    None
                },
            };
            let ghost s2 = sink@;
            let a2 = resolve_exprs(args, mappings, counter, sink);
            proof {
                lemma_reported(m1, c1, s1, s2);
                lemma_advanced(m0, c0, s0, m1, c1, s1, m1, c1, s2);
                lemma_advanced(m0, c0, s0, m1, c1, s2, *mappings, *counter, sink@);
                lemma_advanced(m1, c1, s1, m1, c1, s2, *mappings, *counter, sink@);
                lemma_continues(s0, s1, sink@);
                lemma_continues(s1, s2, sink@);
                lemma_sexpr_grown(
                    **callee,
                    c2,
                    m1.kinds(),
                    s1 == s0,
                    mappings.kinds(),
                    sink@ == s0,
                );
                if generics is Some {
                    lemma_stypes_grown(
                        generics->0@,
                        g2->0@,
                        m1.kinds(),
                        s2 == s1,
                        mappings.kinds(),
                        sink@ == s0,
                    );
                } else {
                    assert(s2 =~= s1 + Seq::<DiagnosticView>::empty());
                }
                lemma_exprs_grown(
                    args@,
                    a2@,
                    mappings.kinds(),
                    sink@ == s2,
                    mappings.kinds(),
                    sink@ == s0,
                );
                assert(sink@ =~= s0 + expr_step(*e, st0).reports);
            }
            Spanned {
                span: e.span,
                value: Expr::Call { callee: Box::new(c2), generics: g2, args: a2 },
            }
        },
        _ => vstd::pervasive::unreached(),
    }
}

/// Resolves an expression: every name in it is a use of a value.
pub fn resolve_expr(
    e: &Spanned<HoistedExpr>,
    mappings: &mut Mappings,
    counter: &mut Id,
    sink: &mut Diagnostics,
) -> (res: Spanned<HoistedExpr>)
    requires
        coherent(*old(mappings), *old(counter)),
    ensures
        advanced(
            *old(mappings),
            *old(counter),
            old(sink)@,
            *final(mappings),
            *final(counter),
            final(sink)@,
        ),
        final(mappings).names() == old(mappings).names(),
        sexpr_resolves(*e, res, final(mappings).kinds(), final(sink)@ == old(sink)@),
        stepped(
            expr_step(*e, rstate(*old(mappings), *old(counter))),
            sexpr_view(res),
            *final(mappings),
            *final(counter),
            old(sink)@,
            final(sink)@,
        ),
    decreases e, 1nat,
{
    let ghost m0 = *mappings;
    let ghost c0 = *counter;
    let ghost s0 = sink@;
    let ghost st0 = rstate(m0, c0);
    proof {
        lemma_continues_self(s0);
        assert(s0 =~= s0 + Seq::<DiagnosticView>::empty());
    }
    match &e.value {
        Expr::NumberLiteral(x) => Spanned { span: e.span, value: Expr::NumberLiteral(x.clone()) },
        Expr::Identifier(x) => {
            let wrapped = Spanned { span: e.span, value: x.clone() };
            let r = resolve_must_exist(&wrapped, Role::Value, mappings, counter, sink);
            proof {
                assert(use_step(wrapped, Role::Value, st0) == use_step(
                    Spanned { span: e.span, value: *x },
                    Role::Value,
                    st0,
                )) by {
                    reveal(use_step);
                }
            }
            Spanned { span: e.span, value: Expr::Identifier(r.value) }
        },
        Expr::BinaryOp(..) => resolve_binary(e, mappings, counter, sink),
        Expr::UnaryOp(op, v) => {
            let v2 = resolve_expr(&**v, mappings, counter, sink);
            Spanned { span: e.span, value: Expr::UnaryOp(*op, Box::new(v2)) }
        },
        Expr::Scope(s) => {
            let s2 = resolve_scope(s, mappings, counter, sink);
            Spanned { span: e.span, value: Expr::Scope(s2) }
        },
        Expr::Call { .. } => resolve_call(e, mappings, counter, sink),
    }
}

/// Resolves expressions, in order.
pub fn resolve_exprs(
    exprs: &Vec<Spanned<HoistedExpr>>,
    mappings: &mut Mappings,
    counter: &mut Id,
    sink: &mut Diagnostics,
) -> (out: Vec<Spanned<HoistedExpr>>)
    requires
        coherent(*old(mappings), *old(counter)),
    ensures
        advanced(
            *old(mappings),
            *old(counter),
            old(sink)@,
            *final(mappings),
            *final(counter),
            final(sink)@,
        ),
        final(mappings).names() == old(mappings).names(),
        exprs_resolve(exprs@, out@, final(mappings).kinds(), final(sink)@ == old(sink)@),
        stepped(
            exprs_step(exprs@, rstate(*old(mappings), *old(counter))),
            exprs_view(out@),
            *final(mappings),
            *final(counter),
            old(sink)@,
            final(sink)@,
        ),
    decreases exprs,
{
    let ghost m0 = *mappings;
    let ghost c0 = *counter;
    let ghost s0 = sink@;
    let ghost st0 = rstate(m0, c0);
    let mut out: Vec<Spanned<HoistedExpr>> = Vec::new();
    let mut i: usize = 0;
    proof {
        assert(exprs@.take(0) =~= Seq::empty());
        lemma_continues_self(s0);
        assert(exprs_view(out@) =~= exprs_step(exprs@.take(0), st0).out);
        assert(s0 =~= s0 + Seq::<DiagnosticView>::empty());
    }
    while i < exprs.len()
        invariant
            forall|j: int| 0 <= j < exprs.len() ==> decreases_to!(exprs => #[trigger] exprs[j]),
            i <= exprs.len(),
            out.len() == i,
            advanced(m0, c0, s0, *mappings, *counter, sink@),
            stepped(
                exprs_step(exprs@.take(i as int), st0),
                exprs_view(out@),
                *mappings,
                *counter,
                s0,
                sink@,
            ),
            mappings.names() == m0.names(),
            exprs_resolve(exprs@.take(i as int), out@, mappings.kinds(), sink@ == s0),
        decreases exprs.len() - i,
    {
        let ghost m1 = *mappings;
        let ghost c1 = *counter;
        let ghost s1 = sink@;
        let ghost prev = out@;
        let x = resolve_expr(&exprs[i], mappings, counter, sink);
        out.push(x);
        proof {
            let next = exprs@.take(i + 1);
            assert(next.drop_last() =~= exprs@.take(i as int));
            assert(out@.drop_last() =~= prev);
            assert(next.last() == exprs[i as int]);
            lemma_advanced(m0, c0, s0, m1, c1, s1, *mappings, *counter, sink@);
            lemma_exprs_grown(
                exprs@.take(i as int),
                prev,
                m1.kinds(),
                s1 == s0,
                mappings.kinds(),
                sink@ == s0,
            );
            lemma_sexpr_grown(exprs[i as int], x,
                mappings.kinds(),
                sink@ == s1,
                mappings.kinds(),
                sink@ == s0,
            );
            lemma_exprs_view_push(prev, x);
            assert(out@ =~= prev.push(x));
            assert(sink@ =~= s0 + exprs_step(next, st0).reports);
        }
        i += 1;
    }
    assert(exprs@.take(i as int) =~= exprs@);
    out
}

/// Resolves the signature and the body of a function, with the generic
/// parameters and the arguments in sight of the body and of nothing else.
pub fn resolve_func_parts(
    signature: &Signature,
    body: &Option<Spanned<HoistedScope>>,
    mappings: &mut Mappings,
    counter: &mut Id,
    sink: &mut Diagnostics,
) -> (res: (Signature, Option<Spanned<HoistedScope>>))
    requires
        coherent(*old(mappings), *old(counter)),
    ensures
        advanced(
            *old(mappings),
            *old(counter),
            old(sink)@,
            *final(mappings),
            *final(counter),
            final(sink)@,
        ),
        final(mappings).names() == old(mappings).names(),
        signature_resolves(*signature, res.0, final(mappings).kinds(), final(sink)@ == old(sink)@),
        body_resolves(*body, res.1, final(mappings).kinds(), final(sink)@ == old(sink)@),
        stepped(
            func_parts_step(*signature, *body, rstate(*old(mappings), *old(counter))),
            (res.0@, body_view(res.1)),
            *final(mappings),
            *final(counter),
            old(sink)@,
            final(sink)@,
        ),
    decreases body,
{
    let ghost m0 = *mappings;
    let ghost c0 = *counter;
    let ghost s0 = sink@;
    let mut inner = mappings.clone();
    let sig2 = resolve_signature(signature, &mut inner, counter, sink);
    let ghost m1 = inner;
    let ghost c1 = *counter;
    let ghost s1 = sink@;
    let body2 = match body {
        Some(b) => {
            let scope = resolve_scope(&b.value, &mut inner, counter, sink);
            Some(Spanned { span: b.span, value: scope })
        },
        None => {
            proof {
                lemma_continues_self(s1);
            }
            None
        },
    };
    proof {
        lemma_advanced(m0, c0, s0, m1, c1, s1, inner, *counter, sink@);
        lemma_signature_grown(
            *signature,
            sig2,
            m1.kinds(),
            s1 == s0,
            inner.kinds(),
            sink@ == s0,
        );
        lemma_body_grown(*body, body2, inner.kinds(), sink@ == s1, inner.kinds(), sink@ == s0);
        if body is None {
            assert(sink@ =~= s1 + Seq::<DiagnosticView>::empty());
        }
        assert(sink@ =~= s0 + func_parts_step(*signature, *body, rstate(m0, c0)).reports);
    }
    mappings.reprs = inner.reprs;
    (sig2, body2)
}

/// Resolves a declaration: the typed name first, then the value.
fn resolve_create(
    stmt: &Spanned<HoistedStmt>,
    mappings: &mut Mappings,
    counter: &mut Id,
    sink: &mut Diagnostics,
) -> (res: Spanned<HoistedStmt>)
    requires
        coherent(*old(mappings), *old(counter)),
        stmt.value is Create,
    ensures
        advanced(
            *old(mappings),
            *old(counter),
            old(sink)@,
            *final(mappings),
            *final(counter),
            final(sink)@,
        ),
        stmt_resolves(*stmt, res, final(mappings).kinds(), final(sink)@ == old(sink)@),
        stepped(
            stmt_step(*stmt, rstate(*old(mappings), *old(counter))),
            stmt_view(res),
            *final(mappings),
            *final(counter),
            old(sink)@,
            final(sink)@,
        ),
    decreases stmt, 0nat,
{
    let ghost m0 = *mappings;
    let ghost c0 = *counter;
    let ghost s0 = sink@;
    let ghost st0 = rstate(m0, c0);
    match &stmt.value {
        Stmt::Create { ty_id, mutable, value } => {
            let t2 = resolve_typed_ident(ty_id, mappings, counter, sink);
            let ghost m1 = *mappings;
            let ghost c1 = *counter;
            let ghost s1 = sink@;
            let v2 = match value {
                Some(v) => Some(resolve_expr(v, mappings, counter, sink)),
                None => {
                    proof {
                        lemma_continues_self(s1);
                    }
                    None
                },
            };
            proof {
                lemma_advanced(m0, c0, s0, m1, c1, s1, *mappings, *counter, sink@);
                lemma_typed_ident_grown(
                    *ty_id,
                    t2,
                    m1.kinds(),
                    s1 == s0,
                    mappings.kinds(),
                    sink@ == s0,
                );
                if value is Some {
                    lemma_sexpr_grown(
                        value->0,
                        v2->0,
                        mappings.kinds(),
                        sink@ == s1,
                        mappings.kinds(),
                        sink@ == s0,
                    );
                } else {
                    assert(sink@ =~= s1 + Seq::<DiagnosticView>::empty());
                }
                assert(sink@ =~= s0 + stmt_step(*stmt, st0).reports);
            }
            Spanned {
                span: stmt.span,
                value: Stmt::Create { ty_id: t2, mutable: *mutable, value: v2 },
            }
        },
        _ => vstd::pervasive::unreached(),
    }
}

/// Resolves an assignment: the target as a use of a variable, then the
/// value.
fn resolve_assign(
    stmt: &Spanned<HoistedStmt>,
    mappings: &mut Mappings,
    counter: &mut Id,
    sink: &mut Diagnostics,
) -> (res: Spanned<HoistedStmt>)
    requires
        coherent(*old(mappings), *old(counter)),
        stmt.value is Assign,
    ensures
        advanced(
            *old(mappings),
            *old(counter),
            old(sink)@,
            *final(mappings),
            *final(counter),
            final(sink)@,
        ),
        stmt_resolves(*stmt, res, final(mappings).kinds(), final(sink)@ == old(sink)@),
        stepped(
            stmt_step(*stmt, rstate(*old(mappings), *old(counter))),
            stmt_view(res),
            *final(mappings),
            *final(counter),
            old(sink)@,
            final(sink)@,
        ),
    decreases stmt, 0nat,
{
    let ghost m0 = *mappings;
    let ghost c0 = *counter;
    let ghost s0 = sink@;
    let ghost st0 = rstate(m0, c0);
    match &stmt.value {
        Stmt::Assign { id, value } => {
            let i2 = resolve_must_exist(id, Role::Target, mappings, counter, sink);
            let ghost s1 = sink@;
            let v2 = resolve_expr(value, mappings, counter, sink);
            proof {
                lemma_reported(m0, c0, s0, s1);
                lemma_advanced(m0, c0, s0, m0, c0, s1, *mappings, *counter, sink@);
                lemma_ident_grown(
                    i2.value,
                    Role::Target,
                    m0.kinds(),
                    s1 == s0,
                    mappings.kinds(),
                    sink@ == s0,
                );
                lemma_sexpr_grown(
                    *value,
                    v2,
                    mappings.kinds(),
                    sink@ == s1,
                    mappings.kinds(),
                    sink@ == s0,
                );
                assert(sink@ =~= s0 + stmt_step(*stmt, st0).reports);
            }
            Spanned { span: stmt.span, value: Stmt::Assign { id: i2, value: v2 } }
        },
        _ => vstd::pervasive::unreached(),
    }
}

/// Resolves a function that stands among the statements: its name as a
/// new function, then its signature and body.
fn resolve_func_stmt(
    stmt: &Spanned<HoistedStmt>,
    mappings: &mut Mappings,
    counter: &mut Id,
    sink: &mut Diagnostics,
) -> (res: Spanned<HoistedStmt>)
    requires
        coherent(*old(mappings), *old(counter)),
        stmt.value is Func,
    ensures
        advanced(
            *old(mappings),
            *old(counter),
            old(sink)@,
            *final(mappings),
            *final(counter),
            final(sink)@,
        ),
        stmt_resolves(*stmt, res, final(mappings).kinds(), final(sink)@ == old(sink)@),
        stepped(
            stmt_step(*stmt, rstate(*old(mappings), *old(counter))),
            stmt_view(res),
            *final(mappings),
            *final(counter),
            old(sink)@,
            final(sink)@,
        ),
    decreases stmt, 0nat,
{
    let ghost m0 = *mappings;
    let ghost c0 = *counter;
    let ghost s0 = sink@;
    let ghost st0 = rstate(m0, c0);
    match &stmt.value {
        Stmt::Func { id, signature, body } => {
            let i2 = resolve_make_new(id, MapRepr::Func, mappings, counter, sink);
            let ghost m1 = *mappings;
            let ghost c1 = *counter;
            let ghost s1 = sink@;
            let parts = resolve_func_parts(signature, body, mappings, counter, sink);
            proof {
                lemma_advanced(m0, c0, s0, m1, c1, s1, *mappings, *counter, sink@);
                lemma_ident_grown(
                    i2.value,
                    Role::Decl(MapRepr::Func),
                    m1.kinds(),
                    s1 == s0,
                    mappings.kinds(),
                    sink@ == s0,
                );
                lemma_signature_grown(
                    *signature,
                    parts.0,
                    mappings.kinds(),
                    sink@ == s1,
                    mappings.kinds(),
                    sink@ == s0,
                );
                lemma_body_grown(
                    *body,
                    parts.1,
                    mappings.kinds(),
                    sink@ == s1,
                    mappings.kinds(),
                    sink@ == s0,
                );
                assert(sink@ =~= s0 + stmt_step(*stmt, st0).reports);
            }
            Spanned {
                span: stmt.span,
                value: Stmt::Func { id: i2, signature: parts.0, body: parts.1 },
            }
        },
        _ => vstd::pervasive::unreached(),
    }
}

/// Resolves one statement. A declaration brings its name in sight before
/// its value is resolved.
pub fn resolve_stmt(
    stmt: &Spanned<HoistedStmt>,
    mappings: &mut Mappings,
    counter: &mut Id,
    sink: &mut Diagnostics,
) -> (res: Spanned<HoistedStmt>)
    requires
        coherent(*old(mappings), *old(counter)),
    ensures
        advanced(
            *old(mappings),
            *old(counter),
            old(sink)@,
            *final(mappings),
            *final(counter),
            final(sink)@,
        ),
        stmt_resolves(*stmt, res, final(mappings).kinds(), final(sink)@ == old(sink)@),
        stepped(
            stmt_step(*stmt, rstate(*old(mappings), *old(counter))),
            stmt_view(res),
            *final(mappings),
            *final(counter),
            old(sink)@,
            final(sink)@,
        ),
    decreases stmt, 1nat,
{
    match &stmt.value {
        Stmt::Create { .. } => resolve_create(stmt, mappings, counter, sink),
        Stmt::Assign { .. } => resolve_assign(stmt, mappings, counter, sink),
        Stmt::Func { .. } => resolve_func_stmt(stmt, mappings, counter, sink),
        Stmt::Return { value, is_yield } => {
            let v2 = resolve_expr(value, mappings, counter, sink);
            Spanned { span: stmt.span, value: Stmt::Return { value: v2, is_yield: *is_yield } }
        },
    }
}

/// Whether the functions of `funcs` whose names are in `ids` are in
/// sight: each name that got a number is known.
pub open spec fn funcs_in_sight(
    funcs: Seq<(Ident, Spanned<HoistedFunc>)>,
    ids: Seq<Spanned<Ident>>,
    m: Mappings,
) -> bool {
    forall|i: int|
        0 <= i < funcs.len() && i < ids.len() ==> ((#[trigger] ids[i]).value matches Ident::Resolved(
            k,
        ) && k != 0 ==> m.knows(funcs[i].1.value.id.value@))
}

/// Whether each of `ids` is the name of a function, at the span of the
/// name of the function of `funcs` at its place.
pub open spec fn funcs_named(
    funcs: Seq<(Ident, Spanned<HoistedFunc>)>,
    ids: Seq<Spanned<Ident>>,
    kinds: Map<Id, MapRepr>,
    clean: bool,
) -> bool {
    &&& ids.len() == funcs.len()
    &&& forall|i: int|
        0 <= i < funcs.len() ==> (#[trigger] ids[i]).span == funcs[i].1.value.id.span
            && ident_bound(ids[i].value, Role::Decl(MapRepr::Func), kinds, clean)
}

/// Brings the functions of a scope's table in sight, each under a new
/// number, before any statement of the scope is resolved; returns their
/// resolved names in the order of the table.
pub fn make_all_funcs(
    funcs: &Vec<(Ident, Spanned<HoistedFunc>)>,
    mappings: &mut Mappings,
    counter: &mut Id,
    sink: &mut Diagnostics,
) -> (ids: Vec<Spanned<Ident>>)
    requires
        coherent(*old(mappings), *old(counter)),
    ensures
        advanced(
            *old(mappings),
            *old(counter),
            old(sink)@,
            *final(mappings),
            *final(counter),
            final(sink)@,
        ),
        funcs_named(funcs@, ids@, final(mappings).kinds(), final(sink)@ == old(sink)@),
        funcs_in_sight(funcs@, ids@, *final(mappings)),
        stepped(
            make_funcs_step(funcs@, rstate(*old(mappings), *old(counter))),
            spanned_idents_view(ids@),
            *final(mappings),
            *final(counter),
            old(sink)@,
            final(sink)@,
        ),
{
    let ghost m0 = *mappings;
    let ghost c0 = *counter;
    let ghost s0 = sink@;
    let ghost st0 = rstate(m0, c0);
    let mut ids: Vec<Spanned<Ident>> = Vec::new();
    let mut i: usize = 0;
    proof {
        lemma_continues_self(s0);
        assert(funcs@.take(0) =~= Seq::empty());
        assert(spanned_idents_view(ids@) =~= make_funcs_step(funcs@.take(0), st0).out);
        assert(s0 =~= s0 + Seq::<DiagnosticView>::empty());
    }
    while i < funcs.len()
        invariant
            i <= funcs.len(),
            ids.len() == i,
            advanced(m0, c0, s0, *mappings, *counter, sink@),
            stepped(
                make_funcs_step(funcs@.take(i as int), st0),
                spanned_idents_view(ids@),
                *mappings,
                *counter,
                s0,
                sink@,
            ),
            forall|j: int|
                0 <= j < i ==> (#[trigger] ids[j]).span == funcs[j].1.value.id.span && ident_bound(
                    ids[j].value,
                    Role::Decl(MapRepr::Func),
                    mappings.kinds(),
                    sink@ == s0,
                ),
            funcs_in_sight(funcs@, ids@, *mappings),
        decreases funcs.len() - i,
    {
        let ghost m1 = *mappings;
        let ghost c1 = *counter;
        let ghost s1 = sink@;
        let ghost prev = ids@;
        let id = resolve_make_new(&funcs[i].1.value.id, MapRepr::Func, mappings, counter, sink);
        ids.push(id);
        proof {
            let next = funcs@.take(i + 1);
            assert(next.drop_last() =~= funcs@.take(i as int));
            assert(next.last() == funcs[i as int]);
            let step = make_funcs_step(next, st0);
            assert(spanned_idents_view(ids@) =~= step.out);
            assert(sink@ =~= s0 + step.reports);
            lemma_advanced(m0, c0, s0, m1, c1, s1, *mappings, *counter, sink@);
            assert forall|j: int| 0 <= j < i + 1 implies (#[trigger] ids[j]).span
                == funcs[j].1.value.id.span && ident_bound(
                ids[j].value,
                Role::Decl(MapRepr::Func),
                mappings.kinds(),
                sink@ == s0,
            ) by {
                if j < i {
                    assert(ids[j] == prev[j]);
                    lemma_ident_grown(
                        prev[j].value,
                        Role::Decl(MapRepr::Func),
                        m1.kinds(),
                        s1 == s0,
                        mappings.kinds(),
                        sink@ == s0,
                    );
                } else {
                    lemma_ident_grown(
                        id.value,
                        Role::Decl(MapRepr::Func),
                        mappings.kinds(),
                        sink@ == s1,
                        mappings.kinds(),
                        sink@ == s0,
                    );
                }
            }
            let name = funcs[i as int].1.value.id.value@;
            assert forall|j: int| 0 <= j < funcs.len() && j < ids.len() implies ((
            #[trigger] ids[j]).value matches Ident::Resolved(k) && k != 0 ==> mappings.knows(
                funcs[j].1.value.id.value@,
            )) by {
                let other = funcs[j].1.value.id.value@;
                if j < i {
                    assert(ids[j] == prev[j]);
                    if prev[j].value is Resolved && prev[j].value->Resolved_0 != 0 {
                        assert(m1.knows(other));
                        let k = m1.number_of(other);
                        if mappings.names() != m1.names() {
                            let fresh = (c1 + 1) as usize;
                            if other == name {
                                assert(mappings.names().contains_key(fresh) && mappings.names()[fresh]
                                    == other);
                            } else {
                                assert(m1.kinds().contains_key(k));
                                assert(mappings.names().contains_key(k) && mappings.names()[k]
                                    == other);
                            }
                        } else {
                            assert(mappings.names().contains_key(k) && mappings.names()[k] == other);
                        }
                    }
                } else {
                    if id.value is Resolved && id.value->Resolved_0 != 0 {
                        let fresh = (c1 + 1) as usize;
                        assert(mappings.names().contains_key(fresh) && mappings.names()[fresh]
                            == name);
                    }
                }
            }
        }
        i += 1;
    }
    assert(funcs@.take(i as int) =~= funcs@);
    ids
}

/// The table entry of a variable that a resolved statement declares.
fn created_entry(stmt: &Spanned<HoistedStmt>) -> (res: Option<(Ident, Spanned<Var>)>)
    ensures
        match stmt.value {
            Stmt::Create { ty_id, mutable, .. } => res matches Some(e) && e.0@
                == ty_id.value.ident.value@ && e.1.span == stmt.span && e.1.value@ == (
            crate::hoister::VarView { ty: ty_id.value.ty.value@, mutable }),
            _ => res is None,
        },
{
    match &stmt.value {
        Stmt::Create { ty_id, mutable, .. } => Some(
            (
                ty_id.value.ident.value.clone(),
                Spanned {
                    span: stmt.span,
                    value: Var { ty: ty_id.value.ty.value.clone(), mutable: *mutable },
                },
            ),
        ),
        _ => None,
    }
}

/// Resolves a scope. What the scope declares is in sight inside it only:
/// its functions from the start, its variables from their declarations
/// on. The functions are resolved after the statements, with everything
/// the scope declares in sight.
pub fn resolve_scope(
    scope: &HoistedScope,
    mappings: &mut Mappings,
    counter: &mut Id,
    sink: &mut Diagnostics,
) -> (res: HoistedScope)
    requires
        coherent(*old(mappings), *old(counter)),
    ensures
        advanced(
            *old(mappings),
            *old(counter),
            old(sink)@,
            *final(mappings),
            *final(counter),
            final(sink)@,
        ),
        final(mappings).names() == old(mappings).names(),
        scope_resolves(*scope, res, final(mappings).kinds(), final(sink)@ == old(sink)@),
        stepped(
            scope_step(*scope, rstate(*old(mappings), *old(counter))),
            scope_view(res),
            *final(mappings),
            *final(counter),
            old(sink)@,
            final(sink)@,
        ),
    decreases scope,
{
    let ghost m0 = *mappings;
    let ghost c0 = *counter;
    let ghost s0 = sink@;
    let ghost st0 = rstate(m0, c0);
    let mut inner = mappings.clone();
    let ids = make_all_funcs(&scope.data.funcs, &mut inner, counter, sink);
    let ghost m_f = inner;
    let ghost s_f = sink@;
    let ghost st_f = rstate(inner, *counter);
    let ghost step_f = make_funcs_step(scope.data.funcs@, st0);
    let mut out = HoistedScope::new();
    let mut i: usize = 0;
    proof {
        lemma_continues_self(s_f);
        assert(scope.stmts@.take(0) =~= Seq::empty());
        assert(vars_table_view(out.data.vars@) =~= created(out.stmts@));
        assert(stmts_view(out.stmts@) =~= stmts_step(scope.stmts@.take(0), st_f).out);
        assert(s_f =~= s_f + Seq::<DiagnosticView>::empty());
    }
    while i < scope.stmts.len()
        invariant
            forall|j: int|
                0 <= j < scope.stmts.len() ==> decreases_to!(scope => #[trigger] scope.stmts[j]),
            i <= scope.stmts.len(),
            advanced(m0, c0, s0, inner, *counter, sink@),
            stepped(
                stmts_step(scope.stmts@.take(i as int), st_f),
                stmts_view(out.stmts@),
                inner,
                *counter,
                s_f,
                sink@,
            ),
            extends(inner.kinds(), m_f.kinds()),
            continues(s_f, s0),
            continues(sink@, s_f),
            stmts_resolve(scope.stmts@.take(i as int), out.stmts@, inner.kinds(), sink@ == s0),
            vars_table_view(out.data.vars@) == created(out.stmts@),
            out.data.funcs@.len() == 0,
        decreases scope.stmts.len() - i,
    {
        let ghost m1 = inner;
        let ghost c1 = *counter;
        let ghost s1 = sink@;
        let ghost prev = out.stmts@;
        let ghost prev_vars = out.data.vars@;
        let stmt = resolve_stmt(&scope.stmts[i], &mut inner, counter, sink);
        match created_entry(&stmt) {
            Some(entry) => {
                out.data.vars.push(entry);
            },
            None => {},
        }
        out.stmts.push(stmt);
        proof {
            let next = scope.stmts@.take(i + 1);
            assert(next.drop_last() =~= scope.stmts@.take(i as int));
            assert(out.stmts@.drop_last() =~= prev);
            assert(next.last() == scope.stmts[i as int]);
            lemma_advanced(m0, c0, s0, m1, c1, s1, inner, *counter, sink@);
            lemma_continues(s_f, s1, sink@);
            assert forall|x: Id| #[trigger] m_f.kinds().contains_key(x) implies inner.kinds().contains_key(
                x,
            ) && inner.kinds()[x] == m_f.kinds()[x] by {
                assert(m1.kinds().contains_key(x));
            }
            lemma_stmts_grown(
                scope.stmts@.take(i as int),
                prev,
                m1.kinds(),
                s1 == s0,
                inner.kinds(),
                sink@ == s0,
            );
            lemma_stmt_grown(
                scope.stmts[i as int],
                stmt,
                inner.kinds(),
                sink@ == s1,
                inner.kinds(),
                sink@ == s0,
            );
            assert(vars_table_view(out.data.vars@) =~= created(out.stmts@));
            lemma_stmts_view_push(prev, stmt);
            assert(out.stmts@ =~= prev.push(stmt));
            assert(sink@ =~= s_f + stmts_step(next, st_f).reports);
        }
        i += 1;
    }
    assert(scope.stmts@.take(i as int) =~= scope.stmts@);
    let ghost m_s = inner;
    let ghost s_s = sink@;
    let ghost st_s = rstate(inner, *counter);
    let ghost step_s = stmts_step(scope.stmts@, st_f);
    let ghost ids_view = spanned_idents_view(ids@);
    let funcs = &scope.data.funcs;
    let mut k: usize = 0;
    proof {
        assert(funcs@.take(0) =~= Seq::empty());
        lemma_continues_self(s_s);
        lemma_continues(s0, s_f, s_s);
        assert(funcs_view(out.data.funcs@) =~= funcs_step(
            funcs@.take(0),
            ids_view.take(0),
            st_s,
        ).out);
        assert(s_s =~= s_s + Seq::<DiagnosticView>::empty());
    }
    while k < funcs.len()
        invariant
            forall|j: int|
                0 <= j < scope.data.funcs.len() ==> decreases_to!(scope => #[trigger] scope.data.funcs[j]),
            funcs == &scope.data.funcs,
            k <= funcs.len(),
            ids.len() == funcs.len(),
            out.data.funcs.len() == k,
            advanced(m0, c0, s0, inner, *counter, sink@),
            extends(inner.kinds(), m_s.kinds()),
            extends(m_s.kinds(), m_f.kinds()),
            continues(s_f, s0),
            continues(s_s, s_f),
            continues(sink@, s_s),
            funcs_named(funcs@, ids@, m_f.kinds(), s_f == s0),
            stmts_resolve(scope.stmts@, out.stmts@, m_s.kinds(), s_s == s0),
            vars_table_view(out.data.vars@) == created(out.stmts@),
            funcs_resolve(funcs@.take(k as int), out.data.funcs@, inner.kinds(), sink@ == s0),
            ids_view == spanned_idents_view(ids@),
            stmts_view(out.stmts@) == step_s.out,
            stepped(
                funcs_step(funcs@.take(k as int), ids_view.take(k as int), st_s),
                funcs_view(out.data.funcs@),
                inner,
                *counter,
                s_s,
                sink@,
            ),
        decreases funcs.len() - k,
    {
        let ghost m1 = inner;
        let ghost c1 = *counter;
        let ghost s1 = sink@;
        let ghost prev = out.data.funcs@;
        let f = &funcs[k].1;
        let parts = resolve_func_parts(&f.value.signature, &f.value.body, &mut inner, counter, sink);
        let id = Spanned { span: ids[k].span, value: ids[k].value.clone() };
        let key = ids[k].value.clone();
        let entry = Spanned {
            span: f.span,
            value: Func { id, signature: parts.0, body: parts.1 },
        };
        proof {
            lemma_advanced(m0, c0, s0, m1, c1, s1, inner, *counter, sink@);
            lemma_continues(s_s, s1, sink@);
            lemma_continues(s_f, s_s, sink@);
            lemma_continues(s0, s_f, sink@);
            assert forall|x: Id| #[trigger] m_s.kinds().contains_key(x) implies inner.kinds().contains_key(
                x,
            ) && inner.kinds()[x] == m_s.kinds()[x] by {
                assert(m1.kinds().contains_key(x));
            }
            assert forall|x: Id| #[trigger] m_f.kinds().contains_key(x) implies inner.kinds().contains_key(
                x,
            ) && inner.kinds()[x] == m_f.kinds()[x] by {
                assert(m_s.kinds().contains_key(x));
            }
            lemma_funcs_grown(
                funcs@.take(k as int),
                prev,
                m1.kinds(),
                s1 == s0,
                inner.kinds(),
                sink@ == s0,
            );
            lemma_ident_grown(
                ids[k as int].value,
                Role::Decl(MapRepr::Func),
                m_f.kinds(),
                s_f == s0,
                inner.kinds(),
                sink@ == s0,
            );
            lemma_signature_grown(
                f.value.signature,
                parts.0,
                inner.kinds(),
                sink@ == s1,
                inner.kinds(),
                sink@ == s0,
            );
            lemma_body_grown(
                f.value.body,
                parts.1,
                inner.kinds(),
                sink@ == s1,
                inner.kinds(),
                sink@ == s0,
            );
            assert(ident_bound(id.value, Role::Decl(MapRepr::Func), inner.kinds(), sink@ == s0)) by {
                assert(id.value@ == ids[k as int].value@);
                match ids[k as int].value {
                    Ident::Resolved(x) => {},
                    Ident::Discarded => {},
                    _ => {},
                }
            }
            assert(func_resolves(f.value, entry.value, inner.kinds(), sink@ == s0));
        }
        out.data.funcs.push((key, entry));
        proof {
            let next = funcs@.take(k + 1);
            assert(next.drop_last() =~= funcs@.take(k as int));
            assert(out.data.funcs@.drop_last() =~= prev);
            assert(next.last() == funcs[k as int]);
            let next_ids = ids_view.take(k + 1);
            assert(next_ids.drop_last() =~= ids_view.take(k as int));
            assert(next_ids.last() == ids_view[k as int]);
            lemma_funcs_view_push(prev, (key, entry));
            assert(out.data.funcs@ =~= prev.push((key, entry)));
            assert(sink@ =~= s_s + funcs_step(next, next_ids, st_s).reports);
        }
        k += 1;
    }
    proof {
        assert(funcs@.take(k as int) =~= funcs@);
        assert(ids_view.take(k as int) =~= ids_view);
        lemma_stmts_grown(
            scope.stmts@,
            out.stmts@,
            m_s.kinds(),
            s_s == s0,
            inner.kinds(),
            sink@ == s0,
        );
        lemma_created_view(out.stmts@);
        assert(sink@ =~= s0 + scope_step(*scope, st0).reports);
    }
    mappings.reprs = inner.reprs;
    out
}

/// Brings the variables of a table in sight, each under a new number;
/// returns their resolved names in the order of the table.
pub fn make_all_vars(
    vars: &Vec<(Ident, Spanned<Var>)>,
    mappings: &mut Mappings,
    counter: &mut Id,
    sink: &mut Diagnostics,
) -> (ids: Vec<Spanned<Ident>>)
    requires
        coherent(*old(mappings), *old(counter)),
    ensures
        advanced(
            *old(mappings),
            *old(counter),
            old(sink)@,
            *final(mappings),
            *final(counter),
            final(sink)@,
        ),
        ids.len() == vars.len(),
        forall|i: int|
            0 <= i < vars.len() ==> (#[trigger] ids[i]).span == vars[i].1.span && ident_bound(
                ids[i].value,
                Role::Decl(MapRepr::Var),
                final(mappings).kinds(),
                final(sink)@ == old(sink)@,
            ),
        stepped(
            make_vars_step(vars@, rstate(*old(mappings), *old(counter))),
            spanned_idents_view(ids@),
            *final(mappings),
            *final(counter),
            old(sink)@,
            final(sink)@,
        ),
{
    let ghost m0 = *mappings;
    let ghost c0 = *counter;
    let ghost s0 = sink@;
    let ghost st0 = rstate(m0, c0);
    let mut ids: Vec<Spanned<Ident>> = Vec::new();
    let mut i: usize = 0;
    proof {
        lemma_continues_self(s0);
        assert(vars@.take(0) =~= Seq::empty());
        assert(spanned_idents_view(ids@) =~= make_vars_step(vars@.take(0), st0).out);
        assert(s0 =~= s0 + Seq::<DiagnosticView>::empty());
    }
    while i < vars.len()
        invariant
            i <= vars.len(),
            ids.len() == i,
            advanced(m0, c0, s0, *mappings, *counter, sink@),
            stepped(
                make_vars_step(vars@.take(i as int), st0),
                spanned_idents_view(ids@),
                *mappings,
                *counter,
                s0,
                sink@,
            ),
            forall|j: int|
                0 <= j < i ==> (#[trigger] ids[j]).span == vars[j].1.span && ident_bound(
                    ids[j].value,
                    Role::Decl(MapRepr::Var),
                    mappings.kinds(),
                    sink@ == s0,
                ),
        decreases vars.len() - i,
    {
        let ghost m1 = *mappings;
        let ghost c1 = *counter;
        let ghost s1 = sink@;
        let ghost prev = ids@;
        let named = Spanned { span: vars[i].1.span, value: vars[i].0.clone() };
        let id = resolve_make_new(&named, MapRepr::Var, mappings, counter, sink);
        ids.push(id);
        proof {
            let next = vars@.take(i + 1);
            assert(next.drop_last() =~= vars@.take(i as int));
            assert(next.last() == vars[i as int]);
            assert(new_step(named, MapRepr::Var, rstate(m1, c1)) == new_step(
                Spanned { span: vars[i as int].1.span, value: vars[i as int].0 },
                MapRepr::Var,
                rstate(m1, c1),
            )) by {
                reveal(new_step);
            }
            let step = make_vars_step(next, st0);
            assert(spanned_idents_view(ids@) =~= step.out);
            assert(sink@ =~= s0 + step.reports);
            lemma_advanced(m0, c0, s0, m1, c1, s1, *mappings, *counter, sink@);
            assert forall|j: int| 0 <= j < i + 1 implies (#[trigger] ids[j]).span == vars[j].1.span
                && ident_bound(
                ids[j].value,
                Role::Decl(MapRepr::Var),
                mappings.kinds(),
                sink@ == s0,
            ) by {
                if j < i {
                    assert(ids[j] == prev[j]);
                    lemma_ident_grown(
                        prev[j].value,
                        Role::Decl(MapRepr::Var),
                        m1.kinds(),
                        s1 == s0,
                        mappings.kinds(),
                        sink@ == s0,
                    );
                } else {
                    lemma_ident_grown(
                        id.value,
                        Role::Decl(MapRepr::Var),
                        mappings.kinds(),
                        sink@ == s1,
                        mappings.kinds(),
                        sink@ == s0,
                    );
                }
            }
        }
        i += 1;
    }
    assert(vars@.take(i as int) =~= vars@);
    ids
}

/// Resolves a hoisted program. The functions and variables of
/// `imported_data` are in sight of the whole program. Every binding site
/// gets a number of its own, counted on from `counter`; every name
/// becomes the number of the binding it refers to, or 0 with an error if
/// there is none. Returns the resolved program with the names of
/// `imported_data`, which stay in sight, and the kind of every number
/// given out.
pub fn resolve(
    scope: &HoistedScope,
    imported_data: &HoistedScopeData,
    counter: &mut Id,
    sink: &mut Diagnostics,
) -> (res: (HoistedScope, Mappings))
    ensures
        coherent(res.1, *final(counter)),
        *old(counter) <= *final(counter),
        continues(final(sink)@, old(sink)@),
        scope_resolves(*scope, res.0, res.1.kinds(), final(sink)@ == old(sink)@),
        stepped(
            resolve_step(*scope, *imported_data, *old(counter)),
            scope_view(res.0),
            res.1,
            *final(counter),
            old(sink)@,
            final(sink)@,
        ),
{
    let ghost c0 = *counter;
    let ghost s0 = sink@;
    let mut mappings = Mappings::new();
    let ghost m0 = mappings;
    let _funcs = make_all_funcs(&imported_data.funcs, &mut mappings, counter, sink);
    let ghost m1 = mappings;
    let ghost c1 = *counter;
    let ghost s1 = sink@;
    let _vars = make_all_vars(&imported_data.vars, &mut mappings, counter, sink);
    let ghost m2 = mappings;
    let ghost c2 = *counter;
    let ghost s2 = sink@;
    let resolved = resolve_scope(scope, &mut mappings, counter, sink);
    proof {
        lemma_advanced(m0, c0, s0, m1, c1, s1, m2, c2, s2);
        lemma_advanced(m0, c0, s0, m2, c2, s2, mappings, *counter, sink@);
        lemma_scope_grown(
            *scope,
            resolved,
            mappings.kinds(),
            sink@ == s2,
            mappings.kinds(),
            sink@ == s0,
        );
        assert(rstate(m0, c0).names =~= Map::<Id, IdentView>::empty());
        assert(rstate(m0, c0).kinds =~= Map::<Id, MapRepr>::empty());
        assert(sink@ =~= s0 + resolve_step(*scope, *imported_data, c0).reports);
    }
    (resolved, mappings)
}

} // verus!
