//! Structural checks on the parsed tree: which statements may stand where,
//! and how names are to be written.

pub mod case;
pub mod context;

use crate::checker::case::{check_ident, found_case, Case};
use crate::checker::context::{allowed, check_stmt, Context};
use crate::common::diagnostics::{
    invalid_case_diagnostic, invalid_stmt_diagnostic, Diagnostics, DiagnosticView,
};
use crate::common::ident::{ident_text, Ident};
use crate::common::span::Spanned;
use crate::common::stmt::Stmt;
use crate::common::typed_ident::TypedIdent;
use crate::parser::types::{ParserScope, ParserStmt};
use vstd::prelude::*;

verus! {

/// What is reported of a statement for where it stands.
pub open spec fn context_report(stmt: Spanned<ParserStmt>, context: Context) -> Seq<
    DiagnosticView,
> {
    if allowed(stmt.value.variant_spec(), context) {
        Seq::empty()
    } else {
        seq![invalid_stmt_diagnostic(stmt.span, stmt.value.variant_spec(), context)]
    }
}

/// What is reported of a name for how it is written.
pub open spec fn case_report(ident: Spanned<Ident>, wanted: Case) -> Seq<DiagnosticView> {
    let found = found_case(ident_text(ident.value@), wanted);
    if found == wanted {
        Seq::empty()
    } else {
        seq![invalid_case_diagnostic(ident.span, wanted, found)]
    }
}

/// What is reported of the generic parameters of a function, in order:
/// they are to be written in pascal case.
pub open spec fn generics_report(generics: Seq<Spanned<Ident>>) -> Seq<DiagnosticView>
    decreases generics.len(),
{
    if generics.len() == 0 {
        Seq::empty()
    } else {
        generics_report(generics.drop_last()) + case_report(generics.last(), Case::PascalCase)
    }
}

/// What is reported of the arguments of a function, in order: they are to
/// be written in snake case.
pub open spec fn args_report(args: Seq<Spanned<TypedIdent>>) -> Seq<DiagnosticView>
    decreases args.len(),
{
    if args.len() == 0 {
        Seq::empty()
    } else {
        args_report(args.drop_last()) + case_report(args.last().value.ident, Case::SnakeCase)
    }
}

/// What is reported of one statement that stands in `context`: first
/// whether it may stand there, then the names it declares, then, of a
/// function, its body.
pub open spec fn stmt_report(stmt: Spanned<ParserStmt>, context: Context) -> Seq<DiagnosticView>
    decreases stmt,
{
    context_report(stmt, context) + (match stmt.value {
        Stmt::Create { ty_id, .. } => case_report(ty_id.value.ident, Case::SnakeCase),
        Stmt::Func { id, signature, body } => case_report(id, Case::SnakeCase) + generics_report(
            signature.generics.value@,
        ) + args_report(signature.args.value@) + (match body {
            Some(b) => stmts_report(b.value.stmts@, Context::Func),
            None => Seq::empty(),
        }),
        _ => Seq::empty(),
    })
}

/// What is reported of statements that stand in `context`, in their order.
pub open spec fn stmts_report(stmts: Seq<Spanned<ParserStmt>>, context: Context) -> Seq<
    DiagnosticView,
>
    decreases stmts,
{
    if stmts.len() == 0 {
        Seq::empty()
    } else {
        stmts_report(stmts.drop_last(), context) + stmt_report(stmts.last(), context)
    }
}

fn check_generics(generics: &Vec<Spanned<Ident>>, sink: &mut Diagnostics)
    ensures
        final(sink)@ == old(sink)@ + generics_report(generics@),
{
    let mut i: usize = 0;
    assert(generics@.take(0) =~= Seq::empty());
    assert(sink@ =~= old(sink)@ + Seq::<DiagnosticView>::empty());
    while i < generics.len()
        invariant
            i <= generics.len(),
            sink@ == old(sink)@ + generics_report(generics@.take(i as int)),
        decreases generics.len() - i,
    {
        let ghost before = sink@;
        check_ident(&generics[i], Case::PascalCase, sink);
        proof {
            let next = generics@.take(i + 1);
            assert(next.drop_last() =~= generics@.take(i as int));
            assert(next.last() == generics[i as int]);
            assert(sink@ =~= before + case_report(generics[i as int], Case::PascalCase));
            assert(sink@ =~= old(sink)@ + generics_report(next));
        }
        i += 1;
    }
    assert(generics@.take(i as int) =~= generics@);
}

fn check_args(args: &Vec<Spanned<TypedIdent>>, sink: &mut Diagnostics)
    ensures
        final(sink)@ == old(sink)@ + args_report(args@),
{
    let mut i: usize = 0;
    assert(args@.take(0) =~= Seq::empty());
    assert(sink@ =~= old(sink)@ + Seq::<DiagnosticView>::empty());
    while i < args.len()
        invariant
            i <= args.len(),
            sink@ == old(sink)@ + args_report(args@.take(i as int)),
        decreases args.len() - i,
    {
        let ghost before = sink@;
        check_ident(&args[i].value.ident, Case::SnakeCase, sink);
        proof {
            let next = args@.take(i + 1);
            assert(next.drop_last() =~= args@.take(i as int));
            assert(next.last() == args[i as int]);
            assert(sink@ =~= before + case_report(args[i as int].value.ident, Case::SnakeCase));
            assert(sink@ =~= old(sink)@ + args_report(next));
        }
        i += 1;
    }
    assert(args@.take(i as int) =~= args@);
}

fn check_one(stmt: &Spanned<ParserStmt>, context: Context, sink: &mut Diagnostics)
    ensures
        final(sink)@ == old(sink)@ + stmt_report(*stmt, context),
    decreases stmt,
{
    check_stmt(stmt, context, sink);
    let ghost s0 = old(sink)@;
    let ghost s1 = sink@;
    assert(s1 =~= s0 + context_report(*stmt, context));
    match &stmt.value {
        Stmt::Create { ty_id, .. } => {
            check_ident(&ty_id.value.ident, Case::SnakeCase, sink);
            assert(sink@ =~= s1 + case_report(ty_id.value.ident, Case::SnakeCase));
            assert(sink@ =~= s0 + stmt_report(*stmt, context));
        },
        Stmt::Func { id, signature, body } => {
            check_ident(id, Case::SnakeCase, sink);
            let ghost s2 = sink@;
            assert(s2 =~= s1 + case_report(*id, Case::SnakeCase));
            check_generics(&signature.generics.value, sink);
            let ghost s3 = sink@;
            check_args(&signature.args.value, sink);
            let ghost s4 = sink@;
            match body {
                Some(b) => {
                    check_inner(&b.value, Context::Func, sink);
                },
                None => {
                    assert(sink@ =~= s4 + Seq::<DiagnosticView>::empty());
                },
            }
            assert(sink@ =~= s0 + stmt_report(*stmt, context));
        },
        _ => {
            assert(sink@ =~= s0 + stmt_report(*stmt, context));
        },
    }
}

/// Checks the statements of `scope`, which stands in `context`, and the
/// bodies of its functions.
pub fn check_inner(scope: &ParserScope, context: Context, sink: &mut Diagnostics)
    ensures
        final(sink)@ == old(sink)@ + stmts_report(scope.stmts@, context),
    decreases scope,
{
    let mut i: usize = 0;
    assert(scope.stmts@.take(0) =~= Seq::empty());
    assert(sink@ =~= old(sink)@ + Seq::<DiagnosticView>::empty());
    while i < scope.stmts.len()
        invariant
            forall|j: int|
                0 <= j < scope.stmts.len() ==> decreases_to!(scope => #[trigger] scope.stmts[j]),
            i <= scope.stmts.len(),
            sink@ == old(sink)@ + stmts_report(scope.stmts@.take(i as int), context),
        decreases scope.stmts.len() - i,
    {
        let ghost before = sink@;
        check_one(&scope.stmts[i], context, sink);
        proof {
            let next = scope.stmts@.take(i + 1);
            assert(next.drop_last() =~= scope.stmts@.take(i as int));
            assert(next.last() == scope.stmts[i as int]);
            assert(sink@ =~= old(sink)@ + stmts_report(next, context));
        }
        i += 1;
    }
    assert(scope.stmts@.take(i as int) =~= scope.stmts@);
}

/// Checks a parsed program: at top level only functions may stand, inside
/// a function anything; variables, functions and arguments are to be
/// written in snake case, generic parameters in pascal case. Reports in
/// the order of the source text, and changes nothing.
pub fn check(scope: &ParserScope, sink: &mut Diagnostics)
    ensures
        final(sink)@ == old(sink)@ + stmts_report(scope.stmts@, Context::TopLevel),
{
    check_inner(scope, Context::TopLevel, sink);
}

} // verus!
