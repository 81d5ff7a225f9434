//! The parser: tokens to statements.
//!
//! The grammar, with `*` for any number, `?` for maybe and `|` for or:
//!
//! - a scope is statements;
//! - a statement is a return, a declaration, an assignment, a function or
//!   an expression, each but the function followed by `;` once or more,
//!   the function by `;` any number of times;
//! - a return is `return` or `yield` and an expression;
//! - a declaration is `let` or `mut` and a name, `=` and an expression, or
//!   a type and a name, maybe after `let` or `mut`, and maybe `=` and an
//!   expression;
//! - an assignment is a name, maybe one of `+ - * /`, `=` and an
//!   expression;
//! - a function is, in this order: maybe the word for outside linkage, a
//!   type or `func`, a name, maybe names in `<>`, arguments in `()`, each
//!   a type and maybe a name, any of `pure` and `unsafe`, maybe `->` and a
//!   type, and maybe a body, which is a scope in braces or `=>`, an
//!   expression and `;`;
//! - an expression standing alone is declared as the value of `_`.

pub mod cursor;
pub mod display;
pub mod expr;
pub mod spec;
pub mod stmt;
pub mod types;
pub mod view;

use crate::common::diagnostics::{
    continues, diagnostics_view, lemma_pushed, Diagnostic, Diagnostics, Label, Severity,
};
use crate::common::span::{Span, Spanned};
use crate::parser::cursor::{check_ordered, custom_diagnostic, ordered, range_span, Tokens};
use crate::parser::spec::parse_step;
use crate::parser::stmt::parse_stmts;
use crate::parser::types::{scope_spanned, ParserScope, ParserStmt};
use crate::parser::view::stmts_view;
use vstd::prelude::*;

verus! {

/// The scope of a parse that went well or not.
pub open spec fn parsed_scope(res: Result<ParserScope, (ParserScope, Vec<Diagnostic>)>)
    -> ParserScope {
    match res {
        Ok(scope) => scope,
        Err(pair) => pair.0,
    }
}

/// Parses the tokens of a source text; `eoi` is the span of the end of the
/// text. The program and the reports are those of [`parse_step`]: a
/// statement that does not parse is reported and skipped up to the next
/// semicolon, and the parse goes on. Returns the program if nothing was
/// reported, else what there is of it with a copy of what was reported.
/// In the program every node lies within the node it is part of, and all
/// within the tokens; tokens whose spans are out of order are reported,
/// and give an empty program.
pub fn parse(tokens: &Tokens, eoi: Span, sink: &mut Diagnostics) -> (res: Result<
    ParserScope,
    (ParserScope, Vec<Diagnostic>),
>)
    ensures
        parsed_scope(res)@ == parse_step(tokens@, eoi).out,
        final(sink)@ == old(sink)@ + parse_step(tokens@, eoi).reports,
        res is Ok <==> parse_step(tokens@, eoi).reports.len() == 0,
        res matches Err(pair) ==> diagnostics_view(pair.1@) == parse_step(tokens@, eoi).reports,
        continues(final(sink)@, old(sink)@),
        ordered(tokens@, eoi) ==> scope_spanned(
            parsed_scope(res),
            range_span(tokens@, eoi, 0, tokens@.len() as int),
        ),
{
    let from = sink.len();
    proof {
        assert(sink@.skip(from as int) =~= Seq::empty());
    }
    if !check_ordered(tokens, eoi) {
        proof {
            lemma_pushed(sink@, custom_diagnostic(eoi, "token spans are out of order"@));
        }
        let mut labels: Vec<Label> = Vec::new();
        labels.push(Label::primary(eoi, String::new()));
        let d = Diagnostic {
            severity: Severity::Error,
            message: "token spans are out of order".to_owned(),
            labels,
            notes: Vec::new(),
        };
        proof {
            let want = custom_diagnostic(eoi, "token spans are out of order"@);
            assert(d@.labels =~= want.labels);
            assert(d@.notes =~= want.notes);
        }
        sink.push(d);
        let new = sink.since(from);
        let stmts: Vec<Spanned<ParserStmt>> = Vec::new();
        proof {
            let reports = parse_step(tokens@, eoi).reports;
            assert(sink@ =~= old(sink)@ + reports);
            assert(diagnostics_view(new@) =~= reports);
            assert(stmts_view(stmts@) =~= Seq::empty());
        }
        return Err((ParserScope { stmts }, new));
    }
    let (stmts, _end) = parse_stmts(tokens, eoi, 0, false, from, sink);
    let scope = ParserScope { stmts };
    proof {
        let reports = parse_step(tokens@, eoi).reports;
        assert(sink@.take(from as int) == old(sink)@);
        assert(sink@ =~= sink@.take(from as int) + sink@.skip(from as int));
        assert(sink@ =~= old(sink)@ + reports);
    }
    if sink.len() == from {
        Ok(scope)
    } else {
        let new = sink.since(from);
        assert(diagnostics_view(new@) =~= parse_step(tokens@, eoi).reports);
        Err((scope, new))
    }
}

} // verus!
