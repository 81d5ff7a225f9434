//! Type inference: a type for every expression, found by unification.

pub mod engine;
pub mod mappings;
pub mod spec;
pub mod to_info;
pub mod type_info;

use crate::common::diagnostics::{continues, diagnostics_view, Diagnostic, Diagnostics};
use crate::common::span::Spanned;
use crate::hoister::HoistedScope;
use crate::infer::engine::Engine;
use crate::infer::mappings::Mappings;
use crate::infer::spec::infer_step;
use crate::infer::to_info::{istate, registered, scope_to_info};
use vstd::prelude::*;

verus! {

/// A fresh engine for one compilation.
pub fn engine() -> (engine: Engine)
    ensures
        engine.wf(),
        engine.table() == Map::<crate::infer::type_info::TypeId, crate::infer::type_info::TypeInfoView>::empty(),
        engine.counter() == 0,
{
    Engine::new()
}

/// Infers the types of a resolved program and returns the type of every
/// name. What does not fit is reported and becomes the failed type; the
/// walk goes on. The table, the types of the names and the reports are
/// those of `infer_step`.
pub fn infer_program(
    scope: &Spanned<HoistedScope>,
    engine: &mut Engine,
    sink: &mut Diagnostics,
) -> (mappings: Mappings)
    requires
        old(engine).wf(),
    ensures
        final(engine).wf(),
        old(engine).table().dom().subset_of(final(engine).table().dom()),
        registered(mappings, *final(engine)),
        continues(final(sink)@, old(sink)@),
        istate(mappings, *final(engine)) == infer_step(
            scope.value,
            old(engine).table(),
            old(engine).counter(),
        ).st,
        final(sink)@ == old(sink)@ + infer_step(
            scope.value,
            old(engine).table(),
            old(engine).counter(),
        ).reports,
{
    let mut mappings = Mappings::new();
    assert(istate(mappings, *engine) =~= (spec::IState {
        table: engine.table(),
        counter: engine.counter(),
        vars: Map::empty(),
        named: Map::empty(),
    }));
    let _info = scope_to_info(&scope.value, &mut mappings, engine, sink);
    mappings
}

/// Infers the types of a resolved program. Returns the type of every
/// name if nothing was reported on the way, else a copy of what was
/// reported.
pub fn infer(scope: &Spanned<HoistedScope>, engine: &mut Engine, sink: &mut Diagnostics) -> (res:
    Result<Mappings, Vec<Diagnostic>>)
    requires
        old(engine).wf(),
    ensures
        final(engine).wf(),
        continues(final(sink)@, old(sink)@),
        res is Ok <==> infer_step(scope.value, old(engine).table(), old(engine).counter()).reports.len()
            == 0,
        res matches Ok(m) ==> registered(m, *final(engine)) && istate(m, *final(engine))
            == infer_step(scope.value, old(engine).table(), old(engine).counter()).st,
        res matches Err(d) ==> diagnostics_view(d@) == infer_step(
            scope.value,
            old(engine).table(),
            old(engine).counter(),
        ).reports,
        final(sink)@ == old(sink)@ + infer_step(
            scope.value,
            old(engine).table(),
            old(engine).counter(),
        ).reports,
{
    let before = sink.len();
    let mappings = infer_program(scope, engine, sink);
    if sink.len() == before {
        assert(sink@.take(before as int) =~= sink@);
        return Ok(mappings);
    }
    let new = sink.since(before);
    assert(diagnostics_view(new@) =~= infer_step(
        scope.value,
        old(engine).table(),
        old(engine).counter(),
    ).reports);
    Err(new)
}

} // verus!
