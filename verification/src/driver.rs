//! The stages in their order, on one source text.

use crate::checker::{check, stmts_report};
use crate::checker::context::Context;
use crate::common::diagnostics::{continues, Diagnostics, DiagnosticView};
use crate::common::ident::Id;
use crate::common::span::{Spanned, SpannedRaw};
use crate::common::view::ScopeView;
use crate::hoister::{hoist, scope_hoisted, HoistedScope, HoistedScopeData};
use crate::hoister::view::scope_view;
use crate::infer::engine::Engine;
use crate::infer::infer_program;
use crate::infer::spec::infer_step;
use crate::infer::to_info::{istate, registered};
use crate::lexer::{chars_of, end_of_text, lex_chars, Token};
use crate::lexer::spec::{lex_spec, scanned, text_end, tokens_view};
use crate::parser::{parse, parsed_scope};
use crate::parser::spec::parse_step;
use crate::parser::types::ParserScope;
use crate::resolver::{coherent, resolve, rstate};
use crate::resolver::spec::{scope_step, RState, Step};
use vstd::prelude::*;

verus! {

/// What the front-end finds out about one source text: what each stage
/// made of it.
pub struct Analysis {
    /// The tokens of the text.
    pub tokens: Vec<SpannedRaw<Token>>,
    /// The program as parsed.
    pub parsed: ParserScope,
    /// The program with its functions and variables in tables.
    pub hoisted: HoistedScope,
    /// The program, hoisted and resolved.
    pub program: HoistedScope,
    /// The kind of every number given out.
    pub symbols: crate::resolver::mappings::Mappings,
    /// The number given out last.
    pub last_id: Id,
    /// The type of every name.
    pub types: crate::infer::mappings::Mappings,
    /// The table of types.
    pub engine: Engine,
}

/// The resolution of a program with nothing in sight before it, counted
/// from zero.
pub open spec fn program_step(hoisted: HoistedScope) -> Step<ScopeView> {
    scope_step(hoisted, RState { names: Map::empty(), kinds: Map::empty(), counter: 0 })
}

/// Whether `a` is what the stages make of the text `code`, each of what
/// the stage before it made, and `later` is `earlier` with the reports of
/// the stages in their order: the scanner, which reads numbers with their
/// pattern if it is `there`, the parser, the structural checks, the
/// resolver after hoisting, and inference.
pub open spec fn staged(
    a: Analysis,
    code: Seq<char>,
    file_id: usize,
    there: bool,
    earlier: Seq<DiagnosticView>,
    later: Seq<DiagnosticView>,
) -> bool {
    let scanned = lex_spec(code, file_id, there);
    let parsed = parse_step(a.tokens@, text_end(code, file_id));
    let checked = stmts_report(a.parsed.stmts@, Context::TopLevel);
    let resolved = program_step(a.hoisted);
    let inferred = infer_step(a.program, Map::empty(), 0);
    &&& tokens_view(a.tokens@) == scanned.tokens
    &&& a.parsed@ == parsed.out
    &&& scope_hoisted(a.parsed, a.hoisted)
    &&& scope_view(a.program) == resolved.out
    &&& rstate(a.symbols, a.last_id) == resolved.st
    &&& istate(a.types, a.engine) == inferred.st
    &&& later == earlier + scanned.reports + parsed.reports + checked + resolved.reports
        + inferred.reports
}

/// Runs the front-end on a source text: lexing, parsing, the structural
/// checks, hoisting, resolution and inference, each on what the stage
/// before it made of the text, whatever it reported. Every stage appends
/// its diagnostics to `sink`.
pub fn analyze(code: &str, file_id: usize, sink: &mut Diagnostics) -> (analysis: Analysis)
    ensures
        exists|there: bool| #[trigger]
            staged(analysis, code@, file_id, there, old(sink)@, final(sink)@),
        continues(final(sink)@, old(sink)@),
        analysis.engine.wf(),
        registered(analysis.types, analysis.engine),
        coherent(analysis.symbols, analysis.last_id),
{
    let ghost s0 = sink@;
    let chars = chars_of(code);
    let tokens = lex_chars(&chars, file_id, sink);
    let ghost s1 = sink@;
    let ghost there = choose|there: bool|
        scanned(#[trigger] lex_spec(code@, file_id, there), tokens@, s0, s1);
    let eoi = end_of_text(&chars, file_id);
    let res = parse(&tokens, eoi, sink);
    let ghost s2 = sink@;
    let ghost parsed_view = parsed_scope(res)@;
    let parsed = match res {
        Ok(scope) => scope,
        Err(pair) => pair.0,
    };
    check(&parsed, sink);
    let ghost s3 = sink@;
    let hoisted = hoist(&parsed);
    let mut counter: Id = 0;
    let imported = HoistedScopeData::new();
    let (program, symbols) = resolve(&hoisted, &imported, &mut counter, sink);
    let ghost s4 = sink@;
    let mut engine = Engine::new();
    let whole = Spanned { span: eoi, value: program };
    let types = infer_program(&whole, &mut engine, sink);
    let analysis = Analysis {
        tokens,
        parsed,
        hoisted,
        program: whole.value,
        symbols,
        last_id: counter,
        types,
        engine,
    };
    proof {
        let st = RState { names: Map::empty(), kinds: Map::empty(), counter: 0 };
        let funcs = crate::resolver::spec::make_funcs_step(imported.funcs@, st);
        let vars = crate::resolver::spec::make_vars_step(imported.vars@, funcs.st);
        let resolved = program_step(hoisted);
        assert(funcs.st == st && funcs.reports =~= Seq::<DiagnosticView>::empty());
        assert(vars.st == st && vars.reports =~= Seq::<DiagnosticView>::empty());
        assert(s4 =~= s3 + resolved.reports);
        assert(parsed@ == parsed_view);
        assert(sink@ =~= s0 + lex_spec(code@, file_id, there).reports + parse_step(
            tokens@,
            eoi,
        ).reports + stmts_report(parsed.stmts@, Context::TopLevel) + resolved.reports + infer_step(
            analysis.program,
            Map::empty(),
            0,
        ).reports);
        assert(staged(analysis, code@, file_id, there, s0, sink@));
        assert(sink@.take(s0.len() as int) =~= s0);
    }
    analysis
}

} // verus!
