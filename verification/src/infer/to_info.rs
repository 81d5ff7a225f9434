//! The walk over the program that gives every expression a type and
//! unifies what must agree.

use crate::common::diagnostics::{
    continues, lemma_appended, lemma_continues, lemma_continues_self, lemma_pushed, primary_label,
    Diagnostic, Diagnostics, DiagnosticView, Label, Severity,
};
use crate::common::expr::Expr;
use crate::common::func::Signature;
use crate::common::ident::{Id, Ident};
use crate::common::span::{Span, Spanned};
use crate::common::stmt::Stmt;
use crate::common::typed_ident::TypedIdent;
use crate::common::types::{BuiltIn, Type};
use crate::hoister::{HoistedExpr, HoistedFunc, HoistedScope, HoistedStmt, Var};
use crate::infer::engine::{Engine, Table};
use crate::infer::mappings::Mappings;
use crate::infer::spec::{
    body_step, expr_step, func_step, funcs_step, generic_step, generics_step, handle_step,
    inside_args_step, number_spec, outside_args_step, outside_return_spec, record_step,
    register_funcs_step, register_vars_step, return_step, scope_step, signature_step, stmt_step,
    stmts_step, unify_step, value_step, written_step, Carried, IState, IStep,
};
use crate::infer::type_info::{TypeId, TypeInfo, TypeInfoView};
use crate::lexer::{NumberLiteral, NumberLiteralType};
use vstd::prelude::*;
use vstd::string::StringExecFns;

verus! {

/// What a literal says of its own type: a literal that states family and
/// width has that built-in type; any other is some number, of the family
/// it states, if it states one.
pub open spec fn literal_info(ty: Option<NumberLiteralType>) -> TypeInfoView {
    match ty {
        Some(NumberLiteralType::Integer { bits: Some(width), signed }) => TypeInfoView::BuiltIn(
            BuiltIn::Integer { bits: width, signed },
        ),
        Some(NumberLiteralType::Float { bits: Some(width) }) => TypeInfoView::BuiltIn(
            BuiltIn::Float { bits: width },
        ),
        _ => TypeInfoView::Number(ty),
    }
}

/// What a type as written says: a built-in type is itself; a name stands
/// for the info of the type registered under its number, and has failed
/// where none is; anything else is to be found.
pub open spec fn written_info(ty: Type, named: Map<Id, Spanned<TypeId>>, table: Table)
    -> TypeInfoView {
    match ty {
        Type::User(Ident::Resolved(id)) => if named.contains_key(id) && table.contains_key(
            named[id].value,
        ) {
            table[named[id].value]
        } else {
            TypeInfoView::Bottom
        },
        Type::User(_) => TypeInfoView::Bottom,
        Type::BuiltIn(b) => TypeInfoView::BuiltIn(b),
        _ => TypeInfoView::Unknown,
    }
}

/// Every reference of `info` leads into `table`.
pub open spec fn info_grounded(info: TypeInfoView, table: Table) -> bool {
    info matches TypeInfoView::SameAs(j) ==> table.contains_key(j)
}

/// Every type that `mappings` names is in the table of `engine`.
pub open spec fn registered(mappings: Mappings, engine: Engine) -> bool {
    &&& forall|id: Id| #[trigger]
        mappings.vars().contains_key(id) ==> engine.table().contains_key(mappings.vars()[id].value)
    &&& forall|id: Id| #[trigger]
        mappings.named().contains_key(id) ==> engine.table().contains_key(
            mappings.named()[id].value,
        )
}

/// One step of inference: the table stays sound and loses no type, what
/// the mappings name stays in it, and the diagnostics only grow.
pub open spec fn inferred(
    e0: Engine,
    s0: Seq<DiagnosticView>,
    m1: Mappings,
    e1: Engine,
    s1: Seq<DiagnosticView>,
) -> bool {
    &&& e1.wf()
    &&& e0.table().dom().subset_of(e1.table().dom())
    &&& e0.counter() <= e1.counter()
    &&& registered(m1, e1)
    &&& continues(s1, s0)
}

/// Steps of inference compose.
pub proof fn lemma_inferred(
    e0: Engine,
    s0: Seq<DiagnosticView>,
    e1: Engine,
    s1: Seq<DiagnosticView>,
    m2: Mappings,
    e2: Engine,
    s2: Seq<DiagnosticView>,
)
    requires
        e0.table().dom().subset_of(e1.table().dom()),
        e0.counter() <= e1.counter(),
        continues(s1, s0),
        inferred(e1, s1, m2, e2, s2),
    ensures
        inferred(e0, s0, m2, e2, s2),
{
    lemma_continues(s0, s1, s2);
}

/// What the mappings name stays in a table that loses no type.
pub proof fn lemma_registered(m: Mappings, e0: Engine, e1: Engine)
    requires
        registered(m, e0),
        e0.table().dom().subset_of(e1.table().dom()),
    ensures
        registered(m, e1),
{
    assert forall|id: Id| #[trigger] m.vars().contains_key(id) implies e1.table().contains_key(
        m.vars()[id].value,
    ) by {
        assert(e0.table().dom().contains(m.vars()[id].value));
    }
    assert forall|id: Id| #[trigger] m.named().contains_key(id) implies e1.table().contains_key(
        m.named()[id].value,
    ) by {
        assert(e0.table().dom().contains(m.named()[id].value));
    }
}

/// What is known, as the specification of inference sees it.
pub open spec fn istate(m: Mappings, e: Engine) -> IState {
    IState { table: e.table(), counter: e.counter(), vars: m.vars(), named: m.named() }
}

/// Whether a call did what `step` says: it returned `out`, left `m` and
/// `e` known, and appended what the step reports.
pub open spec fn walked<T>(
    step: IStep<T>,
    out: T,
    m: Mappings,
    e: Engine,
    s0: Seq<DiagnosticView>,
    s1: Seq<DiagnosticView>,
) -> bool {
    &&& step.out == out
    &&& step.st =~= istate(m, e)
    &&& s1 =~= s0 + step.reports
}

/// Records `info`, found at `span`, as a new type.
pub fn add_info(
    info: TypeInfo,
    span: Span,
    mappings: &Mappings,
    engine: &mut Engine,
    sink: &mut Diagnostics,
) -> (handle: Spanned<TypeId>)
    requires
        old(engine).wf(),
        registered(*mappings, *old(engine)),
        info_grounded(info@, old(engine).table()),
    ensures
        inferred(*old(engine), old(sink)@, *mappings, *final(engine), final(sink)@),
        final(engine).table().contains_key(handle.value),
        handle.span == span,
        walked(
            record_step(info@, span, istate(*mappings, *old(engine))),
            handle,
            *mappings,
            *final(engine),
            old(sink)@,
            final(sink)@,
        ),
{
    proof {
        reveal(record_step);
        lemma_continues_self(old(sink)@);
        lemma_pushed(old(sink)@, crate::common::diagnostics::out_of_ids_diagnostic(span));
        assert(old(sink)@ =~= old(sink)@ + Seq::<DiagnosticView>::empty());
        assert(old(sink)@.push(crate::common::diagnostics::out_of_ids_diagnostic(span)) =~= old(sink)@ + seq![crate::common::diagnostics::out_of_ids_diagnostic(span)]);
    }
    let id = engine.record(info, span, sink);
    proof {
        lemma_registered(*mappings, *old(engine), *engine);
    }
    Spanned { span, value: id }
}

/// The type a literal has by what it states.
pub fn literal_to_info(literal: &NumberLiteral) -> (info: TypeInfo)
    ensures
        info@ == literal_info(literal.ty),
{
    match literal.ty {
        Some(NumberLiteralType::Integer { bits: Some(width), signed }) => TypeInfo::BuiltIn(
            BuiltIn::Integer { bits: width, signed },
        ),
        Some(NumberLiteralType::Float { bits: Some(width) }) => TypeInfo::BuiltIn(
            BuiltIn::Float { bits: width },
        ),
        other => TypeInfo::Number(other),
    }
}

/// The info of a type as written.
pub fn type_to_info(ty: &Type, mappings: &Mappings, engine: &Engine) -> (info: TypeInfo)
    requires
        engine.wf(),
    ensures
        info@ == written_info(*ty, mappings.named(), engine.table()),
        info_grounded(info@, engine.table()),
{
    match ty {
        Type::User(ident) => match ident {
            Ident::Resolved(id) => match mappings.get_named_ty(*id) {
                Some(handle) => match engine.get(handle.value) {
                    Some(info) => {
                        proof {
                            engine.lemma_root(handle.value);
                        }
                        info.clone()
                    },
                    None => TypeInfo::Bottom,
                },
                None => TypeInfo::Bottom,
            },
            _ => TypeInfo::Bottom,
        },
        Type::BuiltIn(b) => TypeInfo::BuiltIn(*b),
        _ => TypeInfo::Unknown,
    }
}

/// Records the info of a type as written, as a new type.
pub fn add_written(
    ty: &Spanned<Type>,
    mappings: &Mappings,
    engine: &mut Engine,
    sink: &mut Diagnostics,
) -> (handle: Spanned<TypeId>)
    requires
        old(engine).wf(),
        registered(*mappings, *old(engine)),
    ensures
        inferred(*old(engine), old(sink)@, *mappings, *final(engine), final(sink)@),
        final(engine).table().contains_key(handle.value),
        handle.span == ty.span,
        walked(
            written_step(*ty, istate(*mappings, *old(engine))),
            handle,
            *mappings,
            *final(engine),
            old(sink)@,
            final(sink)@,
        ),
{
    let info = type_to_info(&ty.value, mappings, engine);
    add_info(info, ty.span, mappings, engine, sink)
}

/// The number of a resolved name; 0 for any other.
pub fn number(ident: &Ident) -> (id: Id)
    ensures
        id == number_spec(*ident),
{
    match ident {
        Ident::Resolved(n) => *n,
        _ => 0,
    }
}

/// Registers one generic parameter.
fn register_generic(
    generic: &Spanned<Ident>,
    rigid: bool,
    mappings: &mut Mappings,
    engine: &mut Engine,
    sink: &mut Diagnostics,
) -> (handle: TypeId)
    requires
        old(engine).wf(),
        registered(*old(mappings), *old(engine)),
    ensures
        inferred(*old(engine), old(sink)@, *final(mappings), *final(engine), final(sink)@),
        walked(
            generic_step(*generic, rigid, istate(*old(mappings), *old(engine))),
            handle,
            *final(mappings),
            *final(engine),
            old(sink)@,
            final(sink)@,
        ),
{
    let id = number(&generic.value);
    let info = if rigid {
        TypeInfo::Generic(id)
    } else {
        TypeInfo::UnknownGeneric(id)
    };
    let handle = add_info(info, generic.span, mappings, engine, sink);
    if id != 0 {
        mappings.insert_named_ty(id, handle);
    }
    handle.value
}

/// Registers the generic parameters of a function, in order.
fn register_generics(
    generics: &Vec<Spanned<Ident>>,
    rigid: bool,
    mappings: &mut Mappings,
    engine: &mut Engine,
    sink: &mut Diagnostics,
) -> (out: Vec<TypeId>)
    requires
        old(engine).wf(),
        registered(*old(mappings), *old(engine)),
    ensures
        inferred(*old(engine), old(sink)@, *final(mappings), *final(engine), final(sink)@),
        walked(
            generics_step(generics@, rigid, istate(*old(mappings), *old(engine))),
            out@,
            *final(mappings),
            *final(engine),
            old(sink)@,
            final(sink)@,
        ),
{
    let ghost e0 = *engine;
    let ghost s0 = sink@;
    let ghost st0 = istate(*mappings, *engine);
    let mut out: Vec<TypeId> = Vec::new();
    let mut i: usize = 0;
    proof {
        lemma_continues_self(s0);
        assert(generics@.take(0) =~= Seq::empty());
        assert(out@ =~= generics_step(generics@.take(0), rigid, st0).out);
        assert(s0 =~= s0 + Seq::<DiagnosticView>::empty());
    }
    while i < generics.len()
        invariant
            i <= generics.len(),
            inferred(e0, s0, *mappings, *engine, sink@),
            walked(
                generics_step(generics@.take(i as int), rigid, st0),
                out@,
                *mappings,
                *engine,
                s0,
                sink@,
            ),
        decreases generics.len() - i,
    {
        let ghost e1 = *engine;
        let ghost s1 = sink@;
        let ghost prev = out@;
        let handle = register_generic(&generics[i], rigid, mappings, engine, sink);
        out.push(handle);
        proof {
            lemma_inferred(e0, s0, e1, s1, *mappings, *engine, sink@);
            let next = generics@.take(i + 1);
            assert(next.drop_last() =~= generics@.take(i as int));
            assert(next.last() == generics[i as int]);
            assert(out@ =~= prev.push(handle));
            assert(sink@ =~= s0 + generics_step(next, rigid, st0).reports);
        }
        i += 1;
    }
    assert(generics@.take(i as int) =~= generics@);
    out
}

/// Records the types of the arguments as written, in order.
fn outside_args(
    args: &Vec<Spanned<TypedIdent>>,
    mappings: &Mappings,
    engine: &mut Engine,
    sink: &mut Diagnostics,
) -> (out: Vec<TypeId>)
    requires
        old(engine).wf(),
        registered(*mappings, *old(engine)),
    ensures
        inferred(*old(engine), old(sink)@, *mappings, *final(engine), final(sink)@),
        walked(
            outside_args_step(args@, istate(*mappings, *old(engine))),
            out@,
            *mappings,
            *final(engine),
            old(sink)@,
            final(sink)@,
        ),
{
    let ghost e0 = *engine;
    let ghost s0 = sink@;
    let ghost st0 = istate(*mappings, *engine);
    let mut out: Vec<TypeId> = Vec::new();
    let mut i: usize = 0;
    proof {
        lemma_continues_self(s0);
        assert(args@.take(0) =~= Seq::empty());
        assert(out@ =~= outside_args_step(args@.take(0), st0).out);
        assert(s0 =~= s0 + Seq::<DiagnosticView>::empty());
    }
    while i < args.len()
        invariant
            i <= args.len(),
            inferred(e0, s0, *mappings, *engine, sink@),
            walked(outside_args_step(args@.take(i as int), st0), out@, *mappings, *engine, s0, sink@),
        decreases args.len() - i,
    {
        let ghost e1 = *engine;
        let ghost s1 = sink@;
        let ghost prev = out@;
        let handle = add_written(&args[i].value.ty, mappings, engine, sink);
        out.push(handle.value);
        proof {
            lemma_inferred(e0, s0, e1, s1, *mappings, *engine, sink@);
            let next = args@.take(i + 1);
            assert(next.drop_last() =~= args@.take(i as int));
            assert(next.last() == args[i as int]);
            assert(out@ =~= prev.push(handle.value));
            assert(sink@ =~= s0 + outside_args_step(next, st0).reports);
        }
        i += 1;
    }
    assert(args@.take(i as int) =~= args@);
    out
}

/// The info of a function as seen from outside: its generic parameters are
/// types to be found, its arguments and its return type are the types as
/// written.
pub fn signature_to_info(
    signature: &Signature,
    mappings: &mut Mappings,
    engine: &mut Engine,
    sink: &mut Diagnostics,
) -> (info: TypeInfo)
    requires
        old(engine).wf(),
        registered(*old(mappings), *old(engine)),
    ensures
        inferred(*old(engine), old(sink)@, *final(mappings), *final(engine), final(sink)@),
        info_grounded(info@, final(engine).table()),
        walked(
            signature_step(*signature, istate(*old(mappings), *old(engine))),
            info@,
            *final(mappings),
            *final(engine),
            old(sink)@,
            final(sink)@,
        ),
{
    let ghost e0 = *engine;
    let ghost s0 = sink@;
    let generics = register_generics(&signature.generics.value, false, mappings, engine, sink);
    let ghost e1 = *engine;
    let ghost s1 = sink@;
    let args = outside_args(&signature.args.value, mappings, engine, sink);
    let ghost e2 = *engine;
    let ghost s2 = sink@;
    let return_ty = add_written(&signature.return_ty, mappings, engine, sink);
    proof {
        lemma_inferred(e0, s0, e1, s1, *mappings, e2, s2);
        lemma_inferred(e0, s0, e2, s2, *mappings, *engine, sink@);
        assert(sink@ =~= s0 + signature_step(*signature, istate(*old(mappings), e0)).reports);
    }
    TypeInfo::FuncSignature { return_ty: return_ty.value, args, generics }
}

/// Registers the arguments of a function as variables of the types as
/// written, in order.
fn inside_args(
    args: &Vec<Spanned<TypedIdent>>,
    mappings: &mut Mappings,
    engine: &mut Engine,
    sink: &mut Diagnostics,
)
    requires
        old(engine).wf(),
        registered(*old(mappings), *old(engine)),
    ensures
        inferred(*old(engine), old(sink)@, *final(mappings), *final(engine), final(sink)@),
        walked(
            inside_args_step(args@, istate(*old(mappings), *old(engine))),
            (),
            *final(mappings),
            *final(engine),
            old(sink)@,
            final(sink)@,
        ),
{
    let ghost e0 = *engine;
    let ghost s0 = sink@;
    let ghost st0 = istate(*mappings, *engine);
    let mut i: usize = 0;
    proof {
        lemma_continues_self(s0);
        assert(args@.take(0) =~= Seq::empty());
        assert(s0 =~= s0 + Seq::<DiagnosticView>::empty());
    }
    while i < args.len()
        invariant
            i <= args.len(),
            inferred(e0, s0, *mappings, *engine, sink@),
            walked(inside_args_step(args@.take(i as int), st0), (), *mappings, *engine, s0, sink@),
        decreases args.len() - i,
    {
        let ghost e1 = *engine;
        let ghost s1 = sink@;
        let handle = add_written(&args[i].value.ty, mappings, engine, sink);
        let ghost m1 = *mappings;
        let id = number(&args[i].value.ident.value);
        if id != 0 {
            mappings.insert_var_ty(id, handle);
        }
        proof {
            lemma_inferred(e0, s0, e1, s1, m1, *engine, sink@);
            let next = args@.take(i + 1);
            assert(next.drop_last() =~= args@.take(i as int));
            assert(next.last() == args[i as int]);
            assert(sink@ =~= s0 + inside_args_step(next, st0).reports);
        }
        i += 1;
    }
    assert(args@.take(i as int) =~= args@);
}

/// The note on a return type that the body does not keep.
pub open spec fn return_note(declared: Seq<char>, actual: Seq<char>, actual_is_void: bool) -> Seq<
    char,
> {
    "return type was declared to be "@ + declared + " but a value of type "@ + actual
        + " was returned instead"@ + (if actual_is_void {
        " (or no return statement exists)"@
    } else {
        Seq::empty()
    })
}

/// The warning for a statement after the one that ends its scope.
pub open spec fn unnecessary_stmt_diagnostic(span: Span) -> DiagnosticView {
    DiagnosticView {
        severity: Severity::Warning,
        message: "unnecessary stmt"@,
        labels: seq![
            primary_label(span, "this statement comes after the scope has returned or yielded"@),
        ],
        notes: Seq::empty(),
    }
}

/// Warns of a statement after the one that ends its scope.
pub fn unnecessary_stmt(sink: &mut Diagnostics, span: Span)
    ensures
        final(sink)@ == old(sink)@.push(unnecessary_stmt_diagnostic(span)),
{
    let mut labels: Vec<Label> = Vec::new();
    labels.push(
        Label::primary(
            span,
            String::from_str("this statement comes after the scope has returned or yielded"),
        ),
    );
    let d = Diagnostic {
        severity: Severity::Warning,
        message: String::from_str("unnecessary stmt"),
        labels,
        notes: Vec::new(),
    };
    assert(d@.labels =~= unnecessary_stmt_diagnostic(span).labels);
    assert(d@.notes =~= unnecessary_stmt_diagnostic(span).notes);
    sink.push(d);
}

/// Unifies two types under the title of a plain type conflict.
fn unify_plain(
    a: Spanned<TypeId>,
    b: Spanned<TypeId>,
    mappings: &Mappings,
    engine: &mut Engine,
    sink: &mut Diagnostics,
) -> (info: TypeInfo)
    requires
        old(engine).wf(),
        registered(*mappings, *old(engine)),
        old(engine).table().contains_key(a.value),
        old(engine).table().contains_key(b.value),
    ensures
        inferred(*old(engine), old(sink)@, *mappings, *final(engine), final(sink)@),
        !(info@ is SameAs),
        walked(
            unify_step(a, b, "type conflict"@, Seq::empty(), istate(*mappings, *old(engine))),
            info@,
            *mappings,
            *final(engine),
            old(sink)@,
            final(sink)@,
        ),
{
    let ghost e0 = *engine;
    let ghost s0 = sink@;
    let info = engine.unify(a, b, sink);
    proof {
        reveal(unify_step);
        lemma_appended(s0, e0.unify_report(a, b, "type conflict"@, Seq::empty()));
        lemma_registered(*mappings, e0, *engine);
    }
    info
}

/// The info of a binary operation: its operands are unified, and it is
/// the same as its first operand, or has failed where they conflict.
fn binary_to_info(
    e: &Spanned<HoistedExpr>,
    mappings: &mut Mappings,
    engine: &mut Engine,
    sink: &mut Diagnostics,
) -> (info: TypeInfo)
    requires
        old(engine).wf(),
        registered(*old(mappings), *old(engine)),
        e.value is BinaryOp,
    ensures
        inferred(*old(engine), old(sink)@, *final(mappings), *final(engine), final(sink)@),
        info_grounded(info@, final(engine).table()),
        walked(
            expr_step(*e, istate(*old(mappings), *old(engine))),
            info@,
            *final(mappings),
            *final(engine),
            old(sink)@,
            final(sink)@,
        ),
    decreases e, 0nat,
{
    let ghost e0 = *engine;
    let ghost s0 = sink@;
    match &e.value {
        Expr::BinaryOp(l, _op, r) => {
            let lhs = expr_to_handle(&**l, mappings, engine, sink);
            let ghost e1 = *engine;
            let ghost s1 = sink@;
            let rhs = expr_to_handle(&**r, mappings, engine, sink);
            let ghost e2 = *engine;
            let ghost s2 = sink@;
            let unified = unify_plain(lhs, rhs, mappings, engine, sink);
            proof {
                lemma_inferred(e0, s0, e1, s1, *mappings, e2, s2);
                lemma_inferred(e0, s0, e2, s2, *mappings, *engine, sink@);
                assert(sink@ =~= s0 + expr_step(*e, istate(*old(mappings), e0)).reports);
            }
            match unified {
                TypeInfo::Bottom => TypeInfo::Bottom,
                _ => TypeInfo::SameAs(lhs.value),
            }
        },
        _ => vstd::pervasive::unreached(),
    }
}

/// The info of an expression: a literal says its own; a name is the same
/// as the type of what it names, and has failed where that has none; the
/// operands of a binary operation are unified, and the operation is the
/// same as its first operand, or has failed where they conflict; a unary
/// operation has the info of its operand; a block has the info of what
/// it yields; a call is to be found.
pub fn expr_to_info(
    e: &Spanned<HoistedExpr>,
    mappings: &mut Mappings,
    engine: &mut Engine,
    sink: &mut Diagnostics,
) -> (info: TypeInfo)
    requires
        old(engine).wf(),
        registered(*old(mappings), *old(engine)),
    ensures
        inferred(*old(engine), old(sink)@, *final(mappings), *final(engine), final(sink)@),
        info_grounded(info@, final(engine).table()),
        walked(
            expr_step(*e, istate(*old(mappings), *old(engine))),
            info@,
            *final(mappings),
            *final(engine),
            old(sink)@,
            final(sink)@,
        ),
    decreases e, 1nat,
{
    let ghost s0 = sink@;
    proof {
        lemma_continues_self(s0);
        assert(s0 =~= s0 + Seq::<DiagnosticView>::empty());
    }
    match &e.value {
        Expr::NumberLiteral(x) => literal_to_info(x),
        Expr::Identifier(x) => match mappings.get_var_ty(number(x)) {
            Some(handle) => TypeInfo::SameAs(handle.value),
            None => TypeInfo::Bottom,
        },
        Expr::BinaryOp(..) => binary_to_info(e, mappings, engine, sink),
        Expr::UnaryOp(_op, v) => expr_to_info(&**v, mappings, engine, sink),
        Expr::Scope(s) => scope_to_info(s, mappings, engine, sink),
        Expr::Call { .. } => TypeInfo::Unknown,
    }
}

/// Records the info of an expression as a new type.
pub fn expr_to_handle(
    e: &Spanned<HoistedExpr>,
    mappings: &mut Mappings,
    engine: &mut Engine,
    sink: &mut Diagnostics,
) -> (handle: Spanned<TypeId>)
    requires
        old(engine).wf(),
        registered(*old(mappings), *old(engine)),
    ensures
        inferred(*old(engine), old(sink)@, *final(mappings), *final(engine), final(sink)@),
        final(engine).table().contains_key(handle.value),
        handle.span == e.span,
        walked(
            handle_step(*e, istate(*old(mappings), *old(engine))),
            handle,
            *final(mappings),
            *final(engine),
            old(sink)@,
            final(sink)@,
        ),
    decreases e, 2nat,
{
    let ghost e0 = *engine;
    let ghost s0 = sink@;
    let info = expr_to_info(e, mappings, engine, sink);
    let ghost e1 = *engine;
    let ghost s1 = sink@;
    let handle = add_info(info, e.span, mappings, engine, sink);
    proof {
        lemma_inferred(e0, s0, e1, s1, *mappings, *engine, sink@);
        assert(sink@ =~= s0 + handle_step(*e, istate(*old(mappings), e0)).reports);
    }
    handle
}

/// Unifies the type of the variable `ident`, if it has one, with the type
/// of `value`.
pub fn unify_with_value(
    ident: &Ident,
    value: &Spanned<HoistedExpr>,
    mappings: &mut Mappings,
    engine: &mut Engine,
    sink: &mut Diagnostics,
)
    requires
        old(engine).wf(),
        registered(*old(mappings), *old(engine)),
    ensures
        inferred(*old(engine), old(sink)@, *final(mappings), *final(engine), final(sink)@),
        walked(
            value_step(*ident, *value, istate(*old(mappings), *old(engine))),
            (),
            *final(mappings),
            *final(engine),
            old(sink)@,
            final(sink)@,
        ),
    decreases value, 3nat,
{
    let ghost e0 = *engine;
    let ghost s0 = sink@;
    let value_ty = expr_to_handle(value, mappings, engine, sink);
    let ghost e1 = *engine;
    let ghost s1 = sink@;
    match mappings.get_var_ty(number(ident)) {
        Some(var_ty) => {
            let _unified = unify_plain(var_ty, value_ty, mappings, engine, sink);
            proof {
                lemma_inferred(e0, s0, e1, s1, *mappings, *engine, sink@);
                assert(sink@ =~= s0 + value_step(*ident, *value, istate(*old(mappings), e0)).reports);
            }
        },
        None => {},
    }
}

/// The return type of a function as seen from outside, if the function is
/// registered with one that the table holds.
fn outside_return(func: &HoistedFunc, mappings: &Mappings, engine: &Engine) -> (res: Option<TypeId>)
    ensures
        res matches Some(handle) ==> engine.table().contains_key(handle),
        res == outside_return_spec(*func, istate(*mappings, *engine)),
{
    match mappings.get_var_ty(number(&func.id.value)) {
        Some(handle) => match engine.get(handle.value) {
            Some(TypeInfo::FuncSignature { return_ty, .. }) => {
                if engine.get(*return_ty).is_some() {
                    Some(*return_ty)
                } else {
                    None
                }
            },
            _ => None,
        },
        None => None,
    }
}

/// The type that the body of a function is held to.
fn return_handle(
    func: &HoistedFunc,
    mappings: &Mappings,
    engine: &mut Engine,
    sink: &mut Diagnostics,
) -> (handle: Spanned<TypeId>)
    requires
        old(engine).wf(),
        registered(*mappings, *old(engine)),
    ensures
        inferred(*old(engine), old(sink)@, *mappings, *final(engine), final(sink)@),
        final(engine).table().contains_key(handle.value),
        walked(
            return_step(*func, istate(*mappings, *old(engine))),
            handle,
            *mappings,
            *final(engine),
            old(sink)@,
            final(sink)@,
        ),
{
    proof {
        lemma_continues_self(sink@);
        assert(sink@ =~= sink@ + Seq::<DiagnosticView>::empty());
    }
    let outside = match func.signature.return_ty.value {
        Type::Inferred => outside_return(func, mappings, engine),
        _ => None,
    };
    match outside {
        Some(handle) => Spanned { span: func.signature.return_ty.span, value: handle },
        None => add_written(&func.signature.return_ty, mappings, engine, sink),
    }
}

/// Checks the body of a function against the type it is held to.
fn check_body(
    body: &Spanned<HoistedScope>,
    return_ty: Spanned<TypeId>,
    mappings: &mut Mappings,
    engine: &mut Engine,
    sink: &mut Diagnostics,
)
    requires
        old(engine).wf(),
        registered(*old(mappings), *old(engine)),
        old(engine).table().contains_key(return_ty.value),
    ensures
        inferred(*old(engine), old(sink)@, *final(mappings), *final(engine), final(sink)@),
        walked(
            body_step(*body, return_ty, istate(*old(mappings), *old(engine))),
            (),
            *final(mappings),
            *final(engine),
            old(sink)@,
            final(sink)@,
        ),
    decreases body, 0nat,
{
    let ghost e0 = *engine;
    let ghost s0 = sink@;
    let info = scope_to_info(&body.value, mappings, engine, sink);
    let ghost e1 = *engine;
    let ghost s1 = sink@;
    let actual = add_info(info, body.span, mappings, engine, sink);
    let ghost e2 = *engine;
    let ghost s2 = sink@;
    proof {
        lemma_inferred(e0, s0, e1, s1, *mappings, e2, s2);
        assert(e0.table().dom().contains(return_ty.value));
    }
    let declared = engine.resolve(return_ty.value);
    let returned = engine.resolve(actual.value);
    let declared_text = declared.display(engine);
    let returned_text = returned.display(engine);
    let is_void = match returned {
        TypeInfo::BuiltIn(BuiltIn::Void) => true,
        _ => false,
    };
    let mut note = String::from_str("return type was declared to be ");
    note.append(declared_text.as_str());
    note.append(" but a value of type ");
    note.append(returned_text.as_str());
    note.append(" was returned instead");
    if is_void {
        note.append(" (or no return statement exists)");
    }
    let mut notes: Vec<String> = Vec::new();
    notes.push(note);
    let ghost given = crate::common::text::texts(notes@);
    let _unified = engine.unify_custom_error(
        return_ty,
        actual,
        "type conflict: incorrect return type",
        notes,
        sink,
    );
    proof {
        reveal(unify_step);
        assert(given =~= seq![note@]);
        assert(note@ =~= return_note(declared_text@, returned_text@, is_void));
        lemma_appended(
            s2,
            e2.unify_report(return_ty, actual, "type conflict: incorrect return type"@, given),
        );
        lemma_registered(*mappings, e2, *engine);
        lemma_continues(s0, s2, sink@);
        assert(sink@ =~= s0 + body_step(*body, return_ty, istate(*old(mappings), e0)).reports);
    }
}

/// Checks a function from inside: its generic parameters are types that
/// stay what they are, its arguments have the types as written, and what
/// its body returns is unified with the return type: the one written, or,
/// where none is written, the one the function has as seen from outside,
/// which is found this way.
pub fn check_func(
    func: &HoistedFunc,
    mappings: &mut Mappings,
    engine: &mut Engine,
    sink: &mut Diagnostics,
)
    requires
        old(engine).wf(),
        registered(*old(mappings), *old(engine)),
    ensures
        inferred(*old(engine), old(sink)@, *final(mappings), *final(engine), final(sink)@),
        walked(
            func_step(*func, istate(*old(mappings), *old(engine))),
            (),
            *final(mappings),
            *final(engine),
            old(sink)@,
            final(sink)@,
        ),
    decreases func, 0nat,
{
    let ghost e0 = *engine;
    let ghost s0 = sink@;
    let ghost st0 = istate(*mappings, *engine);
    let _generics = register_generics(&func.signature.generics.value, true, mappings, engine, sink);
    let ghost e1 = *engine;
    let ghost s1 = sink@;
    inside_args(&func.signature.args.value, mappings, engine, sink);
    let ghost e2 = *engine;
    let ghost s2 = sink@;
    let return_ty = return_handle(func, mappings, engine, sink);
    let ghost e3 = *engine;
    let ghost s3 = sink@;
    proof {
        lemma_inferred(e0, s0, e1, s1, *mappings, e2, s2);
        lemma_inferred(e0, s0, e2, s2, *mappings, e3, s3);
    }
    match &func.body {
        Some(body) => {
            check_body(body, return_ty, mappings, engine, sink);
            proof {
                lemma_inferred(e0, s0, e3, s3, *mappings, *engine, sink@);
                assert(sink@ =~= s0 + func_step(*func, st0).reports);
            }
        },
        None => {
            proof {
                assert(sink@ =~= s0 + func_step(*func, st0).reports);
            }
        },
    }
}

/// Registers the variables of a table with their types as written.
fn register_vars(
    vars: &Vec<(Ident, Spanned<Var>)>,
    mappings: &mut Mappings,
    engine: &mut Engine,
    sink: &mut Diagnostics,
)
    requires
        old(engine).wf(),
        registered(*old(mappings), *old(engine)),
    ensures
        inferred(*old(engine), old(sink)@, *final(mappings), *final(engine), final(sink)@),
        walked(
            register_vars_step(vars@, istate(*old(mappings), *old(engine))),
            (),
            *final(mappings),
            *final(engine),
            old(sink)@,
            final(sink)@,
        ),
{
    let ghost e0 = *engine;
    let ghost s0 = sink@;
    let ghost st0 = istate(*mappings, *engine);
    let mut i: usize = 0;
    proof {
        lemma_continues_self(s0);
        assert(vars@.take(0) =~= Seq::empty());
        assert(s0 =~= s0 + Seq::<DiagnosticView>::empty());
    }
    while i < vars.len()
        invariant
            i <= vars.len(),
            inferred(e0, s0, *mappings, *engine, sink@),
            walked(register_vars_step(vars@.take(i as int), st0), (), *mappings, *engine, s0, sink@),
        decreases vars.len() - i,
    {
        let ghost e1 = *engine;
        let ghost s1 = sink@;
        let entry = &vars[i];
        let info = type_to_info(&entry.1.value.ty, mappings, engine);
        let handle = add_info(info, entry.1.span, mappings, engine, sink);
        let ghost m1 = *mappings;
        let id = number(&entry.0);
        if id != 0 {
            mappings.insert_var_ty(id, handle);
        }
        proof {
            lemma_inferred(e0, s0, e1, s1, m1, *engine, sink@);
            let next = vars@.take(i + 1);
            assert(next.drop_last() =~= vars@.take(i as int));
            assert(next.last() == vars[i as int]);
            assert(sink@ =~= s0 + register_vars_step(next, st0).reports);
        }
        i += 1;
    }
    assert(vars@.take(i as int) =~= vars@);
}

/// Registers the functions of a table with their infos as seen from
/// outside.
fn register_funcs(
    funcs: &Vec<(Ident, Spanned<HoistedFunc>)>,
    mappings: &mut Mappings,
    engine: &mut Engine,
    sink: &mut Diagnostics,
)
    requires
        old(engine).wf(),
        registered(*old(mappings), *old(engine)),
    ensures
        inferred(*old(engine), old(sink)@, *final(mappings), *final(engine), final(sink)@),
        walked(
            register_funcs_step(funcs@, istate(*old(mappings), *old(engine))),
            (),
            *final(mappings),
            *final(engine),
            old(sink)@,
            final(sink)@,
        ),
{
    let ghost e0 = *engine;
    let ghost s0 = sink@;
    let ghost st0 = istate(*mappings, *engine);
    let mut i: usize = 0;
    proof {
        lemma_continues_self(s0);
        assert(funcs@.take(0) =~= Seq::empty());
        assert(s0 =~= s0 + Seq::<DiagnosticView>::empty());
    }
    while i < funcs.len()
        invariant
            i <= funcs.len(),
            inferred(e0, s0, *mappings, *engine, sink@),
            walked(
                register_funcs_step(funcs@.take(i as int), st0),
                (),
                *mappings,
                *engine,
                s0,
                sink@,
            ),
        decreases funcs.len() - i,
    {
        let ghost e1 = *engine;
        let ghost s1 = sink@;
        let entry = &funcs[i];
        let info = signature_to_info(&entry.1.value.signature, mappings, engine, sink);
        let ghost e2 = *engine;
        let ghost s2 = sink@;
        let handle = add_info(info, entry.1.span, mappings, engine, sink);
        let ghost m1 = *mappings;
        let id = number(&entry.0);
        if id != 0 {
            mappings.insert_var_ty(id, handle);
        }
        proof {
            lemma_inferred(e1, s1, e2, s2, m1, *engine, sink@);
            lemma_inferred(e0, s0, e1, s1, m1, *engine, sink@);
            let next = funcs@.take(i + 1);
            assert(next.drop_last() =~= funcs@.take(i as int));
            assert(next.last() == funcs[i as int]);
            assert(sink@ =~= s0 + register_funcs_step(next, st0).reports);
        }
        i += 1;
    }
    assert(funcs@.take(i as int) =~= funcs@);
}

/// What the walk carries along, as a specification value.
pub open spec fn carried_view(returned: bool, result: TypeInfo) -> Carried {
    Carried { returned, result: result@ }
}

/// Walks one statement; `returned` and `result` say whether the scope has
/// returned or yielded, and the info of what it did.
pub fn stmt_to_info(
    stmt: &Spanned<HoistedStmt>,
    returned: bool,
    result: TypeInfo,
    mappings: &mut Mappings,
    engine: &mut Engine,
    sink: &mut Diagnostics,
) -> (res: (bool, TypeInfo))
    requires
        old(engine).wf(),
        registered(*old(mappings), *old(engine)),
        info_grounded(result@, old(engine).table()),
    ensures
        inferred(*old(engine), old(sink)@, *final(mappings), *final(engine), final(sink)@),
        info_grounded(res.1@, final(engine).table()),
        walked(
            stmt_step(*stmt, carried_view(returned, result), istate(*old(mappings), *old(engine))),
            carried_view(res.0, res.1),
            *final(mappings),
            *final(engine),
            old(sink)@,
            final(sink)@,
        ),
    decreases stmt, 0nat,
{
    let ghost e0 = *engine;
    let ghost s0 = sink@;
    let ghost st0 = istate(*mappings, *engine);
    let ghost carried = carried_view(returned, result);
    if returned {
        unnecessary_stmt(sink, stmt.span);
    }
    let ghost s1 = sink@;
    proof {
        lemma_pushed(s0, unnecessary_stmt_diagnostic(stmt.span));
        lemma_continues_self(s0);
        lemma_continues_self(s1);
        assert(s0 =~= s0 + Seq::<DiagnosticView>::empty());
        assert(s0.push(unnecessary_stmt_diagnostic(stmt.span)) =~= s0 + seq![
            unnecessary_stmt_diagnostic(stmt.span),
        ]);
        assert(s1 =~= s1 + Seq::<DiagnosticView>::empty());
    }
    let res = match &stmt.value {
        Stmt::Create { ty_id, mutable: _, value } => match value {
            Some(v) => {
                unify_with_value(&ty_id.value.ident.value, v, mappings, engine, sink);
                (returned, result)
            },
            None => (returned, result),
        },
        Stmt::Assign { id, value } => {
            unify_with_value(&id.value, value, mappings, engine, sink);
            (returned, result)
        },
        Stmt::Func { .. } => (returned, result),
        Stmt::Return { value, is_yield: _ } => {
            let info = expr_to_info(value, mappings, engine, sink);
            (true, info)
        },
    };
    proof {
        lemma_continues(s0, s1, sink@);
        match res.1@ {
            TypeInfoView::SameAs(j) => {
                if e0.table().contains_key(j) {
                    assert(e0.table().dom().contains(j));
                }
            },
            _ => {},
        }
        assert(sink@ =~= s0 + stmt_step(*stmt, carried, st0).reports);
    }
    res
}

/// Walks the statements of a scope and returns the info of what the scope
/// returns or yields, `void` if it does neither.
fn scope_stmts(
    scope: &HoistedScope,
    mappings: &mut Mappings,
    engine: &mut Engine,
    sink: &mut Diagnostics,
) -> (result: TypeInfo)
    requires
        old(engine).wf(),
        registered(*old(mappings), *old(engine)),
    ensures
        inferred(*old(engine), old(sink)@, *final(mappings), *final(engine), final(sink)@),
        info_grounded(result@, final(engine).table()),
        walked(
            stmts_step(
                scope.stmts@,
                Carried { returned: false, result: TypeInfoView::BuiltIn(BuiltIn::Void) },
                istate(*old(mappings), *old(engine)),
            ),
            stmts_step(
                scope.stmts@,
                Carried { returned: false, result: TypeInfoView::BuiltIn(BuiltIn::Void) },
                istate(*old(mappings), *old(engine)),
            ).out,
            *final(mappings),
            *final(engine),
            old(sink)@,
            final(sink)@,
        ),
        result@ == stmts_step(
            scope.stmts@,
            Carried { returned: false, result: TypeInfoView::BuiltIn(BuiltIn::Void) },
            istate(*old(mappings), *old(engine)),
        ).out.result,
    decreases scope, 0nat,
{
    let ghost e0 = *engine;
    let ghost s0 = sink@;
    let ghost st0 = istate(*mappings, *engine);
    let ghost start = Carried { returned: false, result: TypeInfoView::BuiltIn(BuiltIn::Void) };
    let mut returned = false;
    let mut result = TypeInfo::BuiltIn(BuiltIn::Void);
    let mut i: usize = 0;
    proof {
        lemma_continues_self(s0);
        assert(scope.stmts@.take(0) =~= Seq::empty());
        assert(s0 =~= s0 + Seq::<DiagnosticView>::empty());
    }
    while i < scope.stmts.len()
        invariant
            forall|j: int|
                0 <= j < scope.stmts.len() ==> decreases_to!(scope => #[trigger] scope.stmts[j]),
            i <= scope.stmts.len(),
            inferred(e0, s0, *mappings, *engine, sink@),
            info_grounded(result@, engine.table()),
            walked(
                stmts_step(scope.stmts@.take(i as int), start, st0),
                carried_view(returned, result),
                *mappings,
                *engine,
                s0,
                sink@,
            ),
        decreases scope.stmts.len() - i,
    {
        let ghost e1 = *engine;
        let ghost s1 = sink@;
        let res = stmt_to_info(&scope.stmts[i], returned, result, mappings, engine, sink);
        returned = res.0;
        result = res.1;
        proof {
            lemma_inferred(e0, s0, e1, s1, *mappings, *engine, sink@);
            let next = scope.stmts@.take(i + 1);
            assert(next.drop_last() =~= scope.stmts@.take(i as int));
            assert(next.last() == scope.stmts[i as int]);
            assert(sink@ =~= s0 + stmts_step(next, start, st0).reports);
        }
        i += 1;
    }
    assert(scope.stmts@.take(i as int) =~= scope.stmts@);
    result
}

/// Checks the functions of a scope's table, in order.
fn scope_funcs(
    scope: &HoistedScope,
    mappings: &mut Mappings,
    engine: &mut Engine,
    sink: &mut Diagnostics,
)
    requires
        old(engine).wf(),
        registered(*old(mappings), *old(engine)),
    ensures
        inferred(*old(engine), old(sink)@, *final(mappings), *final(engine), final(sink)@),
        walked(
            funcs_step(scope.data.funcs@, istate(*old(mappings), *old(engine))),
            (),
            *final(mappings),
            *final(engine),
            old(sink)@,
            final(sink)@,
        ),
    decreases scope, 0nat,
{
    let ghost e0 = *engine;
    let ghost s0 = sink@;
    let ghost st0 = istate(*mappings, *engine);
    let funcs = &scope.data.funcs;
    let mut k: usize = 0;
    proof {
        lemma_continues_self(s0);
        assert(funcs@.take(0) =~= Seq::empty());
        assert(s0 =~= s0 + Seq::<DiagnosticView>::empty());
    }
    while k < funcs.len()
        invariant
            forall|j: int|
                0 <= j < scope.data.funcs.len() ==> decreases_to!(scope => #[trigger] scope.data.funcs[j]),
            funcs == &scope.data.funcs,
            k <= funcs.len(),
            inferred(e0, s0, *mappings, *engine, sink@),
            walked(funcs_step(funcs@.take(k as int), st0), (), *mappings, *engine, s0, sink@),
        decreases funcs.len() - k,
    {
        let ghost e1 = *engine;
        let ghost s1 = sink@;
        check_func(&funcs[k].1.value, mappings, engine, sink);
        proof {
            lemma_inferred(e0, s0, e1, s1, *mappings, *engine, sink@);
            let next = funcs@.take(k + 1);
            assert(next.drop_last() =~= funcs@.take(k as int));
            assert(next.last() == funcs[k as int]);
            assert(sink@ =~= s0 + funcs_step(next, st0).reports);
        }
        k += 1;
    }
    assert(funcs@.take(k as int) =~= funcs@);
}

/// The info of a scope: that of the value it
/// returns or yields, `void` if it does neither. On the way the types of
/// what the scope declares are registered, each declaration and
/// assignment is unified with its value, every statement after a return
/// or yield is warned of, and the scope's functions are checked.
pub fn scope_to_info(
    scope: &HoistedScope,
    mappings: &mut Mappings,
    engine: &mut Engine,
    sink: &mut Diagnostics,
) -> (info: TypeInfo)
    requires
        old(engine).wf(),
        registered(*old(mappings), *old(engine)),
    ensures
        inferred(*old(engine), old(sink)@, *final(mappings), *final(engine), final(sink)@),
        info_grounded(info@, final(engine).table()),
        walked(
            scope_step(*scope, istate(*old(mappings), *old(engine))),
            info@,
            *final(mappings),
            *final(engine),
            old(sink)@,
            final(sink)@,
        ),
    decreases scope, 1nat,
{
    let ghost e0 = *engine;
    let ghost s0 = sink@;
    let ghost st0 = istate(*mappings, *engine);
    register_vars(&scope.data.vars, mappings, engine, sink);
    let ghost e1 = *engine;
    let ghost s1 = sink@;
    register_funcs(&scope.data.funcs, mappings, engine, sink);
    let ghost e2 = *engine;
    let ghost s2 = sink@;
    let ghost m2 = *mappings;
    let result = scope_stmts(scope, mappings, engine, sink);
    let ghost e3 = *engine;
    let ghost s3 = sink@;
    let ghost m3 = *mappings;
    scope_funcs(scope, mappings, engine, sink);
    proof {
        lemma_inferred(e0, s0, e1, s1, m2, e2, s2);
        lemma_inferred(e0, s0, e2, s2, m3, e3, s3);
        lemma_inferred(e0, s0, e3, s3, *mappings, *engine, sink@);
        match result@ {
            TypeInfoView::SameAs(j) => {
                assert(e3.table().dom().contains(j));
            },
            _ => {},
        }
        assert(sink@ =~= s0 + scope_step(*scope, st0).reports);
    }
    result
}

} // verus!
