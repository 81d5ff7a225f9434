//! Statements and scopes.
//!
//! A statement is a return or yield, a declaration, an assignment, a
//! function, or an expression that stands alone. All but a function end
//! with one semicolon or more; a function may.

use crate::common::diagnostics::{continues, lemma_continues, lemma_continues_self, Diagnostics};
use crate::common::expr::Expr;
use crate::common::func::{
    spanned_idents_view, spanned_typed_idents_view, Attribs, Linkage, Signature, SignatureView,
};
use crate::common::ident::Ident;
use crate::common::span::{Span, Spanned, SpannedRaw};
use crate::common::stmt::Stmt;
use crate::common::typed_ident::TypedIdent;
use crate::common::types::{Type, TypeView};
use crate::common::view::StmtView;
use crate::lexer::{Keyword, Operator, Punctuation, Token};
use crate::parser::cursor::{
    at_assign, at_keyword, at_op, at_punct, at_word, cover_spans, custom, lemma_range_within, one,
    ordered, range_span, span_between, token_span, unclosed, unexpected, unexpected_diagnostic,
    Tokens,
};
use crate::parser::expr::{
    ident_nodiscard, lemma_cover, lemma_token_placed, nodiscard, parse_braced, parse_expr,
    parse_ident, parse_type, ty_ident,
};
use crate::parser::spec::{
    added, arrow_step, assign_step, attribs_loop, attribs_step, binding_step, body_step,
    compound_op_at, expr_stmt_step, finish_create_step, func_body_step, func_step, generics_step,
    head_step, names_step, params_loop, params_step, parsed, recover_at, recover_loop, return_step,
    semis_end, stmt_step, stmts_loop, FuncHead,
};
use crate::parser::types::{
    expr_spanned, ident_plain, idents_spanned, lemma_stmts_widen, placed, stmt_spanned,
    stmts_spanned, type_plain, typed_ident_spanned, typed_idents_spanned, ParserExpr, ParserScope,
    ParserStmt,
};
use crate::parser::view::{
    body_view, lemma_stmts_view_push, sident_view, stmt_found, stmt_view, stmts_view, stype_view,
    styped_view,
};
use vstd::prelude::*;

verus! {

/// What lies within the tokens of a range lies within the tokens of a
/// range around it.
pub proof fn lemma_placed_in(
    tokens: Seq<SpannedRaw<Token>>,
    eoi: Span,
    pos: int,
    end: int,
    a: int,
    b: int,
    span: Span,
)
    requires
        ordered(tokens, eoi),
        0 <= pos <= a <= b <= end <= tokens.len(),
        a == b ==> a < end || pos == end,
        placed(span, range_span(tokens, eoi, a, b)),
    ensures
        placed(span, range_span(tokens, eoi, pos, end)),
        range_span(tokens, eoi, pos, end).start <= range_span(tokens, eoi, pos, end).end,
{
    lemma_range_within(tokens, eoi, pos, end, a, b);
}

/// What parsing a statement from `pos` may return: where it stopped, and,
/// if it succeeded, a statement that took at least one token, whose span
/// is that of the tokens it took, with every node within it.
pub open spec fn stmt_at(
    res: Option<Spanned<ParserStmt>>,
    tokens: Seq<SpannedRaw<Token>>,
    eoi: Span,
    pos: int,
    end: int,
) -> bool {
    &&& pos <= end <= tokens.len()
    &&& res matches Some(s) ==> pos < end && s.span == range_span(tokens, eoi, pos, end)
        && stmt_spanned(s)
}

/// Where the semicolons that begin at `pos` end.
pub fn skip_semis(tokens: &Tokens, pos: usize) -> (end: usize)
    requires
        pos <= tokens.len(),
    ensures
        pos <= end <= tokens.len(),
        end == semis_end(tokens@, pos as int),
{
    let mut end = pos;
    while at_punct(tokens, end, Punctuation::Semicolon)
        invariant
            pos <= end <= tokens.len(),
            semis_end(tokens@, end as int) == semis_end(tokens@, pos as int),
        decreases tokens.len() - end,
    {
        end += 1;
    }
    end
}

/// Where the semicolons that begin at `pos` end, if there is at least
/// one.
pub fn expect_semis(tokens: &Tokens, eoi: Span, pos: usize, from: usize, sink: &mut Diagnostics) -> (res:
    Option<usize>)
    requires
        pos <= tokens.len(),
        from <= old(sink)@.len(),
    ensures
        continues(final(sink)@, old(sink)@),
        res matches Some(end) ==> pos < end <= tokens.len() && end == semis_end(
            tokens@,
            pos as int,
        ) && final(sink)@ == old(sink)@,
        res is None ==> semis_end(tokens@, pos as int) == pos && final(sink)@.skip(from as int)
            == added(
            old(sink)@.skip(from as int),
            unexpected_diagnostic(token_span(tokens@, eoi, pos as int), seq!["';'"@]),
        ),
{
    proof {
        lemma_continues_self(sink@);
    }
    let end = skip_semis(tokens, pos);
    if end == pos {
        unexpected(tokens, eoi, pos, one("';'"), from, sink);
        None
    } else {
        Some(end)
    }
}

/// Finishes a declaration whose typed name has been read: maybe a value
/// after an assignment sign, then the semicolons.
fn finish_create(
    tokens: &Tokens,
    eoi: Span,
    pos: usize,
    cur: usize,
    ty_id: Spanned<TypedIdent>,
    mutable: bool,
    need_value: bool,
    from: usize,
    sink: &mut Diagnostics,
) -> (res: (Option<Spanned<ParserStmt>>, usize))
    requires
        ordered(tokens@, eoi),
        pos < cur <= tokens.len(),
        from <= old(sink)@.len(),
        typed_ident_spanned(ty_id),
        placed(ty_id.span, range_span(tokens@, eoi, pos as int, cur as int)),
    ensures
        continues(final(sink)@, old(sink)@),
        stmt_at(res.0, tokens@, eoi, pos as int, res.1 as int),
        parsed(
            finish_create_step(
                tokens@,
                eoi,
                pos as int,
                cur as int,
                styped_view(ty_id),
                mutable,
                need_value,
                old(sink)@.skip(from as int),
            ),
            stmt_found(res.0),
            res.1,
            from,
            final(sink)@,
        ),
    decreases tokens.len() - pos, 7nat,
{
    let ghost s0 = sink@;
    proof {
        lemma_continues_self(s0);
    }
    let mut value: Option<Spanned<ParserExpr>> = None;
    let mut after = cur;
    if at_assign(tokens, cur) {
        let (e, at1) = parse_expr(tokens, eoi, cur + 1, from, sink);
        match e {
            Some(v) => {
                value = Some(v);
                after = at1;
            },
            None => {
                return (None, at1);
            },
        }
    } else if need_value {
        unexpected(tokens, eoi, cur, one("'='"), from, sink);
        return (None, cur);
    }
    let ghost s1 = sink@;
    match expect_semis(tokens, eoi, after, from, sink) {
        Some(end) => {
            let span = span_between(tokens, eoi, pos, end);
            proof {
                lemma_continues(s0, s1, sink@);
                lemma_placed_in(tokens@, eoi, pos as int, end as int, pos as int, cur as int, ty_id.span);
                if value is Some {
                    lemma_placed_in(
                        tokens@,
                        eoi,
                        pos as int,
                        end as int,
                        cur + 1,
                        after as int,
                        value->0.span,
                    );
                }
            }
            (Some(Spanned { span, value: Stmt::Create { ty_id, mutable, value } }), end)
        },
        None => {
            proof {
                lemma_continues(s0, s1, sink@);
            }
            (None, after)
        },
    }
}

/// Parses a declaration after `let` or `mut` at `pos`: a name, or a type
/// and a name.
fn parse_binding(
    tokens: &Tokens,
    eoi: Span,
    pos: usize,
    mutable: bool,
    from: usize,
    sink: &mut Diagnostics,
) -> (res: (Option<Spanned<ParserStmt>>, usize))
    requires
        ordered(tokens@, eoi),
        pos < tokens.len(),
        from <= old(sink)@.len(),
    ensures
        continues(final(sink)@, old(sink)@),
        stmt_at(res.0, tokens@, eoi, pos as int, res.1 as int),
        parsed(
            binding_step(tokens@, eoi, pos as int, mutable, old(sink)@.skip(from as int)),
            stmt_found(res.0),
            res.1,
            from,
            final(sink)@,
        ),
    decreases tokens.len() - pos, 8nat,
{
    let ghost s0 = sink@;
    if at_word(tokens, pos + 1) && at_word(tokens, pos + 2) {
        let (typed, at1) = ty_ident(tokens, eoi, pos + 1, from, sink);
        match typed {
            Some(ty_id) => {
                proof {
                    lemma_range_within(tokens@, eoi, pos as int, pos + 3, pos + 1, pos + 3);
                }
                let ghost s2 = sink@;
                let res = finish_create(tokens, eoi, pos, pos + 3, ty_id, mutable, false, from, sink);
                proof {
                    lemma_continues(s0, s2, sink@);
                }
                res
            },
            None => (None, at1),
        }
    } else {
        let (ident, at1) = parse_ident(tokens, eoi, pos + 1, from, sink);
        match ident {
            Some(i) => {
                let ty_id = i.infer_type();
                proof {
                    lemma_token_placed(tokens@, eoi, pos as int, pos + 2, pos + 1);
                    lemma_range_within(tokens@, eoi, pos + 1, pos + 2, pos + 1, pos + 2);
                }
                let ghost s2 = sink@;
                let res = finish_create(tokens, eoi, pos, pos + 2, ty_id, mutable, true, from, sink);
                proof {
                    lemma_continues(s0, s2, sink@);
                }
                res
            },
            None => (None, pos + 1),
        }
    }
}

/// The operator of a compound assignment at `pos`, if there is one.
fn compound_op(tokens: &Tokens, pos: usize) -> (res: Option<Operator>)
    ensures
        res is Some ==> pos < tokens.len(),
        res == compound_op_at(tokens@, pos as int),
{
    if at_op(tokens, pos, Operator::Neg) {
        Some(Operator::Neg)
    } else if at_op(tokens, pos, Operator::Star) {
        Some(Operator::Star)
    } else if at_op(tokens, pos, Operator::Plus) {
        Some(Operator::Plus)
    } else if at_op(tokens, pos, Operator::Div) {
        Some(Operator::Div)
    } else {
        None
    }
}

/// Parses an assignment whose target is the word at `pos`. With an
/// operator before the assignment sign, the value is the operation on the
/// target and what is written.
fn parse_assign(
    tokens: &Tokens,
    eoi: Span,
    pos: usize,
    op: Option<Operator>,
    from: usize,
    sink: &mut Diagnostics,
) -> (res: (Option<Spanned<ParserStmt>>, usize))
    requires
        ordered(tokens@, eoi),
        pos < tokens.len(),
        tokens[pos as int].0 is Identifier,
        op is Some ==> pos + 2 < tokens.len(),
        op is None ==> pos + 1 < tokens.len(),
        from <= old(sink)@.len(),
    ensures
        continues(final(sink)@, old(sink)@),
        stmt_at(res.0, tokens@, eoi, pos as int, res.1 as int),
        parsed(
            assign_step(tokens@, eoi, pos as int, op, old(sink)@.skip(from as int)),
            stmt_found(res.0),
            res.1,
            from,
            final(sink)@,
        ),
    decreases tokens.len() - pos, 8nat,
{
    let ghost s0 = sink@;
    let (target, _p) = ident_nodiscard(tokens, eoi, pos, from, sink);
    let id = match target {
        Some(i) => i,
        None => {
            return (None, pos);
        },
    };
    let ghost s1 = sink@;
    let value_at = match op {
        Some(_) => pos + 3,
        None => pos + 2,
    };
    let (rhs, at1) = parse_expr(tokens, eoi, value_at, from, sink);
    let ghost s3 = sink@;
    proof {
        lemma_continues(s0, s1, s3);
    }
    let r = match rhs {
        Some(r) => r,
        None => {
            return (None, at1);
        },
    };
    let value = match op {
        Some(o) => {
            let span = cover_spans(id.span, r.span);
            let lhs = Spanned {
                span: id.span,
                value: Expr::Identifier(
                    match &id.value {
                        Ident::Named(n) => Ident::Named(n.clone()),
                        _ => Ident::Discarded,
                    },
                ),
            };
            proof {
                lemma_token_placed(tokens@, eoi, pos as int, pos + 1, pos as int);
                lemma_cover(
                    tokens@,
                    eoi,
                    pos as int,
                    pos + 1,
                    pos + 3,
                    at1 as int,
                    id.span,
                    r.span,
                );
                assert(placed(tokens@[pos + 1].1, span));
                assert(expr_spanned(lhs));
            }
            Spanned {
                span,
                value: Expr::BinaryOp(
                    Box::new(lhs),
                    Spanned { span: tokens[pos + 1].1, value: o },
                    Box::new(r),
                ),
            }
        },
        None => {
            proof {
                lemma_placed_in(
                    tokens@,
                    eoi,
                    pos as int,
                    at1 as int,
                    value_at as int,
                    at1 as int,
                    r.span,
                );
            }
            r
        },
    };
    match expect_semis(tokens, eoi, at1, from, sink) {
        Some(end) => {
            let span = span_between(tokens, eoi, pos, end);
            proof {
                lemma_continues(s0, s3, sink@);
                lemma_token_placed(tokens@, eoi, pos as int, end as int, pos as int);
                lemma_placed_in(tokens@, eoi, pos as int, end as int, pos as int, at1 as int, value.span);
            }
            (Some(Spanned { span, value: Stmt::Assign { id, value } }), end)
        },
        None => {
            proof {
                lemma_continues(s0, s3, sink@);
            }
            (None, at1)
        },
    }
}

/// Parses a return or yield, whose keyword stands at `pos`.
fn parse_return(
    tokens: &Tokens,
    eoi: Span,
    pos: usize,
    is_yield: bool,
    from: usize,
    sink: &mut Diagnostics,
) -> (res: (Option<Spanned<ParserStmt>>, usize))
    requires
        ordered(tokens@, eoi),
        pos < tokens.len(),
        from <= old(sink)@.len(),
    ensures
        continues(final(sink)@, old(sink)@),
        stmt_at(res.0, tokens@, eoi, pos as int, res.1 as int),
        parsed(
            return_step(tokens@, eoi, pos as int, is_yield, old(sink)@.skip(from as int)),
            stmt_found(res.0),
            res.1,
            from,
            final(sink)@,
        ),
    decreases tokens.len() - pos, 8nat,
{
    let ghost s0 = sink@;
    let (value, at1) = parse_expr(tokens, eoi, pos + 1, from, sink);
    let ghost s1 = sink@;
    match value {
        Some(v) => match expect_semis(tokens, eoi, at1, from, sink) {
            Some(end) => {
                let span = span_between(tokens, eoi, pos, end);
                proof {
                    lemma_continues(s0, s1, sink@);
                    lemma_placed_in(tokens@, eoi, pos as int, end as int, pos + 1, at1 as int, v.span);
                }
                (Some(Spanned { span, value: Stmt::Return { value: v, is_yield } }), end)
            },
            None => {
                proof {
                    lemma_continues(s0, s1, sink@);
                }
                (None, at1)
            },
        },
        None => (None, at1),
    }
}

/// Parses an expression that stands alone as a statement: it is declared
/// as the value of the wildcard.
fn parse_expr_stmt(tokens: &Tokens, eoi: Span, pos: usize, from: usize, sink: &mut Diagnostics) -> (res:
    (Option<Spanned<ParserStmt>>, usize))
    requires
        ordered(tokens@, eoi),
        pos < tokens.len(),
        from <= old(sink)@.len(),
    ensures
        continues(final(sink)@, old(sink)@),
        stmt_at(res.0, tokens@, eoi, pos as int, res.1 as int),
        parsed(
            expr_stmt_step(tokens@, eoi, pos as int, old(sink)@.skip(from as int)),
            stmt_found(res.0),
            res.1,
            from,
            final(sink)@,
        ),
    decreases tokens.len() - pos, 8nat,
{
    let ghost s0 = sink@;
    let (value, at1) = parse_expr(tokens, eoi, pos, from, sink);
    let ghost s1 = sink@;
    match value {
        Some(v) => match expect_semis(tokens, eoi, at1, from, sink) {
            Some(end) => {
                let span = span_between(tokens, eoi, pos, end);
                let ty_id = Spanned { span: v.span, value: Ident::Discarded }.infer_type();
                proof {
                    lemma_continues(s0, s1, sink@);
                    lemma_placed_in(tokens@, eoi, pos as int, end as int, pos as int, at1 as int, v.span);
                }
                (
                    Some(
                        Spanned {
                            span,
                            value: Stmt::Create { ty_id, mutable: false, value: Some(v) },
                        },
                    ),
                    end,
                )
            },
            None => {
                proof {
                    lemma_continues(s0, s1, sink@);
                }
                (None, at1)
            },
        },
        None => (None, at1),
    }
}

} // verus!

verus! {

/// Names that are tokens of a range lie within the span of the range.
pub proof fn lemma_idents_in(
    tokens: Seq<SpannedRaw<Token>>,
    eoi: Span,
    a: int,
    b: int,
    ids: Seq<Spanned<Ident>>,
)
    requires
        ordered(tokens, eoi),
        0 <= a < b <= tokens.len(),
        forall|j: int| 0 <= j < ids.len() ==> ident_plain((#[trigger] ids[j]).value),
        forall|j: int|
            0 <= j < ids.len() ==> exists|k: int| a <= k < b && (#[trigger] ids[j]).span
                == tokens[k].1,
    ensures
        idents_spanned(ids, range_span(tokens, eoi, a, b)),
    decreases ids.len(),
{
    if ids.len() > 0 {
        let last = ids.last();
        let k = choose|k: int| a <= k < b && last.span == tokens[k].1;
        lemma_token_placed(tokens, eoi, a, b, k);
        assert forall|j: int| 0 <= j < ids.drop_last().len() implies exists|k: int|
            a <= k < b && (#[trigger] ids.drop_last()[j]).span == tokens[k].1 by {
            assert(ids.drop_last()[j] == ids[j]);
        }
        assert forall|j: int| 0 <= j < ids.drop_last().len() implies ident_plain(
            (#[trigger] ids.drop_last()[j]).value,
        ) by {
            assert(ids.drop_last()[j] == ids[j]);
        }
        lemma_idents_in(tokens, eoi, a, b, ids.drop_last());
    }
}

/// Parses the generic parameters of a function at `pos`: names between
/// angle brackets, or nothing.
pub fn parse_generics(tokens: &Tokens, eoi: Span, pos: usize, from: usize, sink: &mut Diagnostics) -> (res:
    (Option<Spanned<Vec<Spanned<Ident>>>>, usize))
    requires
        ordered(tokens@, eoi),
        pos <= tokens.len(),
        from <= old(sink)@.len(),
    ensures
        continues(final(sink)@, old(sink)@),
        pos <= res.1 <= tokens.len(),
        res.0 matches Some(g) ==> g.span == range_span(tokens@, eoi, pos as int, res.1 as int)
            && idents_spanned(g.value@, g.span),
        parsed(
            generics_step(tokens@, eoi, pos as int, old(sink)@.skip(from as int)),
            match res.0 {
                Some(g) => Some(Spanned { span: g.span, value: spanned_idents_view(g.value@) }),
                None => None,
            },
            res.1,
            from,
            final(sink)@,
        ),
{
    let ghost s0 = sink@;
    let ghost goal = generics_step(tokens@, eoi, pos as int, s0.skip(from as int));
    proof {
        lemma_continues_self(s0);
    }
    let mut ids: Vec<Spanned<Ident>> = Vec::new();
    assert(spanned_idents_view(ids@) =~= Seq::empty());
    if !at_op(tokens, pos, Operator::Lt) {
        return (Some(Spanned { span: span_between(tokens, eoi, pos, pos), value: ids }), pos);
    }
    let mut cur = pos + 1;
    loop
        invariant
            ordered(tokens@, eoi),
            pos < cur <= tokens.len(),
            from <= s0.len(),
            continues(sink@, s0),
            s0 == old(sink)@,
            forall|j: int| 0 <= j < ids.len() ==> ident_plain((#[trigger] ids[j]).value),
            forall|j: int|
                0 <= j < ids.len() ==> exists|k: int|
                    pos < k < cur && (#[trigger] ids[j]).span == tokens[k].1,
            goal == generics_step(tokens@, eoi, pos as int, old(sink)@.skip(from as int)),
            goal == names_step(
                tokens@,
                eoi,
                pos as int,
                cur as int,
                spanned_idents_view(ids@),
                sink@.skip(from as int),
            ),
        decreases tokens.len() - cur,
    {
        if at_op(tokens, cur, Operator::Gt) {
            let end = cur + 1;
            proof {
                lemma_idents_in(tokens@, eoi, pos as int, end as int, ids@);
            }
            return (Some(Spanned { span: span_between(tokens, eoi, pos, end), value: ids }), end);
        }
        let ghost s1 = sink@;
        let (ident, at1) = parse_ident(tokens, eoi, cur, from, sink);
        proof {
            lemma_continues(s0, s1, sink@);
        }
        let ghost before = ids@;
        match ident {
            Some(i) => {
                ids.push(i);
                assert(spanned_idents_view(ids@) =~= spanned_idents_view(before).push(
                    sident_view(i),
                ));
                if at_punct(tokens, at1, Punctuation::Comma) {
                    cur = at1 + 1;
                } else if at_op(tokens, at1, Operator::Gt) {
                    cur = at1;
                } else {
                    let ghost s2 = sink@;
                    unclosed(tokens, eoi, at1, tokens[pos].1, "<", from, sink);
                    proof {
                        lemma_continues(s0, s2, sink@);
                    }
                    return (None, at1);
                }
            },
            None => {
                return (None, cur);
            },
        }
    }
}

/// Parses the arguments of a function, from the opening parenthesis at
/// `pos` to the closing one: each a type, with or without a name.
pub fn parse_params(tokens: &Tokens, eoi: Span, pos: usize, from: usize, sink: &mut Diagnostics) -> (res:
    (Option<Spanned<Vec<Spanned<TypedIdent>>>>, usize))
    requires
        ordered(tokens@, eoi),
        pos <= tokens.len(),
        from <= old(sink)@.len(),
    ensures
        continues(final(sink)@, old(sink)@),
        pos <= res.1 <= tokens.len(),
        res.0 matches Some(a) ==> pos < res.1 && a.span == range_span(
            tokens@,
            eoi,
            pos as int,
            res.1 as int,
        ) && typed_idents_spanned(a.value@, a.span),
        parsed(
            params_step(tokens@, eoi, pos as int, old(sink)@.skip(from as int)),
            match res.0 {
                Some(a) => Some(
                    Spanned { span: a.span, value: spanned_typed_idents_view(a.value@) },
                ),
                None => None,
            },
            res.1,
            from,
            final(sink)@,
        ),
{
    let ghost s0 = sink@;
    let ghost goal = params_step(tokens@, eoi, pos as int, s0.skip(from as int));
    proof {
        lemma_continues_self(s0);
    }
    if !at_punct(tokens, pos, Punctuation::LParen) {
        unexpected(tokens, eoi, pos, one("'('"), from, sink);
        return (None, pos);
    }
    let mut params: Vec<Spanned<TypedIdent>> = Vec::new();
    assert(spanned_typed_idents_view(params@) =~= Seq::empty());
    let ghost mut ranges: Seq<(int, int)> = Seq::empty();
    let mut cur = pos + 1;
    loop
        invariant
            ordered(tokens@, eoi),
            pos < cur <= tokens.len(),
            from <= s0.len(),
            continues(sink@, s0),
            s0 == old(sink)@,
            forall|j: int| 0 <= j < params.len() ==> typed_ident_spanned(#[trigger] params[j]),
            ranges.len() == params.len(),
            forall|j: int|
                0 <= j < params.len() ==> pos < (#[trigger] ranges[j]).0 < ranges[j].1 <= cur
                    && params[j].span == range_span(tokens@, eoi, ranges[j].0, ranges[j].1),
            goal == params_step(tokens@, eoi, pos as int, old(sink)@.skip(from as int)),
            goal == params_loop(
                tokens@,
                eoi,
                pos as int,
                cur as int,
                spanned_typed_idents_view(params@),
                sink@.skip(from as int),
            ),
        decreases tokens.len() - cur,
    {
        if at_punct(tokens, cur, Punctuation::RParen) {
            let end = cur + 1;
            proof {
                lemma_params_in(tokens@, eoi, pos as int, end as int, params@, ranges);
            }
            return (
                Some(Spanned { span: span_between(tokens, eoi, pos, end), value: params }),
                end,
            );
        }
        let ghost s1 = sink@;
        let (ty, at1) = parse_type(tokens, eoi, cur, from, sink);
        proof {
            lemma_continues(s0, s1, sink@);
        }
        let t = match ty {
            Some(t) => t,
            None => {
                return (None, cur);
            },
        };
        let ghost s2 = sink@;
        proof {
            lemma_continues_self(s2);
        }
        let (param, at2) = if at_word(tokens, at1) {
            let (ident, at2) = parse_ident(tokens, eoi, at1, from, sink);
            match ident {
                Some(i) => {
                    let span = span_between(tokens, eoi, cur, at2);
                    proof {
                        lemma_token_placed(tokens@, eoi, cur as int, at2 as int, cur as int);
                        lemma_token_placed(tokens@, eoi, cur as int, at2 as int, at1 as int);
                    }
                    (Spanned { span, value: TypedIdent { ty: t, ident: i } }, at2)
                },
                None => {
                    proof {
                        lemma_continues(s0, s2, sink@);
                    }
                    return (None, at1);
                },
            }
        } else {
            let span = t.span;
            proof {
                lemma_token_placed(tokens@, eoi, cur as int, at1 as int, cur as int);
            }
            (Spanned { span, value: t.add_discarded_ident() }, at1)
        };
        proof {
            lemma_continues(s0, s2, sink@);
        }
        let ghost before = params@;
        let ghost s3 = sink@;
        let next = if at_punct(tokens, at2, Punctuation::Comma) {
            at2 + 1
        } else if at_punct(tokens, at2, Punctuation::RParen) {
            at2
        } else {
            unclosed(tokens, eoi, at2, tokens[pos].1, "(", from, sink);
            proof {
                lemma_continues(s0, s3, sink@);
            }
            return (None, at2);
        };
        params.push(param);
        proof {
            assert(spanned_typed_idents_view(params@) =~= spanned_typed_idents_view(before).push(
                styped_view(param),
            ));
            let old_ranges = ranges;
            ranges = ranges.push((cur as int, at2 as int));
            assert forall|j: int| 0 <= j < params.len() implies pos < (#[trigger] ranges[j]).0
                < ranges[j].1 <= next && params[j].span == range_span(
                tokens@,
                eoi,
                ranges[j].0,
                ranges[j].1,
            ) by {
                if j < before.len() {
                    assert(params[j] == before[j]);
                    assert(ranges[j] == old_ranges[j]);
                }
            }
            assert forall|j: int| 0 <= j < params.len() implies typed_ident_spanned(
                #[trigger] params[j],
            ) by {
                if j < before.len() {
                    assert(params[j] == before[j]);
                }
            }
        }
        cur = next;
    }
}

/// Arguments that are ranges of tokens of a range lie within the span of
/// the range.
pub proof fn lemma_params_in(
    tokens: Seq<SpannedRaw<Token>>,
    eoi: Span,
    a: int,
    b: int,
    params: Seq<Spanned<TypedIdent>>,
    ranges: Seq<(int, int)>,
)
    requires
        ordered(tokens, eoi),
        0 <= a < b <= tokens.len(),
        ranges.len() == params.len(),
        forall|j: int| 0 <= j < params.len() ==> typed_ident_spanned(#[trigger] params[j]),
        forall|j: int|
            0 <= j < params.len() ==> a <= (#[trigger] ranges[j]).0 < ranges[j].1 <= b
                && params[j].span == range_span(tokens, eoi, ranges[j].0, ranges[j].1),
    ensures
        typed_idents_spanned(params, range_span(tokens, eoi, a, b)),
    decreases params.len(),
{
    if params.len() > 0 {
        let (k, k2) = ranges.last();
        assert(params.last().span == range_span(tokens, eoi, k, k2));
        lemma_range_within(tokens, eoi, a, b, k, k2);
        lemma_range_within(tokens, eoi, k, k2, k, k2);
        assert forall|j: int| 0 <= j < params.drop_last().len() implies a <= (
        #[trigger] ranges.drop_last()[j]).0 < ranges.drop_last()[j].1 <= b
            && params.drop_last()[j].span == range_span(
            tokens,
            eoi,
            ranges.drop_last()[j].0,
            ranges.drop_last()[j].1,
        ) by {
            assert(params.drop_last()[j] == params[j]);
            assert(ranges.drop_last()[j] == ranges[j]);
        }
        assert forall|j: int| 0 <= j < params.drop_last().len() implies typed_ident_spanned(
            #[trigger] params.drop_last()[j],
        ) by {
            assert(params.drop_last()[j] == params[j]);
        }
        lemma_params_in(tokens, eoi, a, b, params.drop_last(), ranges.drop_last());
    }
}

/// Parses the attributes of a function at `pos`: any number of `pure`
/// and `unsafe`. One that comes twice is reported.
pub fn parse_attribs(tokens: &Tokens, eoi: Span, pos: usize, from: usize, sink: &mut Diagnostics) -> (res:
    (Spanned<Attribs>, usize))
    requires
        ordered(tokens@, eoi),
        pos <= tokens.len(),
        from <= old(sink)@.len(),
    ensures
        continues(final(sink)@, old(sink)@),
        pos <= res.1 <= tokens.len(),
        res.0.span == range_span(tokens@, eoi, pos as int, res.1 as int),
        parsed(
            attribs_step(tokens@, eoi, pos as int, old(sink)@.skip(from as int)),
            res.0,
            res.1,
            from,
            final(sink)@,
        ),
{
    let ghost s0 = sink@;
    proof {
        lemma_continues_self(s0);
    }
    let mut attribs = Attribs { is_pure: false, is_unsafe: false };
    let mut twice = false;
    let mut cur = pos;
    loop
        invariant
            pos <= cur <= tokens.len(),
            attribs_loop(tokens@, cur as int, attribs, twice) == attribs_loop(
                tokens@,
                pos as int,
                Attribs { is_pure: false, is_unsafe: false },
                false,
            ),
        ensures
            pos <= cur <= tokens.len(),
            (cur as int, attribs, twice) == attribs_loop(
                tokens@,
                pos as int,
                Attribs { is_pure: false, is_unsafe: false },
                false,
            ),
        decreases tokens.len() - cur,
    {
        if at_keyword(tokens, cur, Keyword::Pure) {
            if attribs.is_pure {
                twice = true;
            }
            attribs.is_pure = true;
        } else if at_keyword(tokens, cur, Keyword::Unsafe) {
            if attribs.is_unsafe {
                twice = true;
            }
            attribs.is_unsafe = true;
        } else {
            break ;
        }
        cur += 1;
    }
    let span = span_between(tokens, eoi, pos, cur);
    if twice {
        custom(span, "cannot apply attribute twice", from, sink);
    }
    (Spanned { span, value: attribs }, cur)
}

/// Parses the body of a function at `pos`: a scope in braces, or an arrow
/// with the expression to return and a semicolon, or nothing. The outer
/// option says whether parsing went well, the inner one whether there is
/// a body.
pub fn parse_body(tokens: &Tokens, eoi: Span, pos: usize, from: usize, sink: &mut Diagnostics) -> (res:
    (Option<Option<Spanned<ParserScope>>>, usize))
    requires
        ordered(tokens@, eoi),
        pos <= tokens.len(),
        from <= old(sink)@.len(),
    ensures
        continues(final(sink)@, old(sink)@),
        pos <= res.1 <= tokens.len(),
        res.0 matches Some(Some(b)) ==> pos < res.1 && b.span == range_span(
            tokens@,
            eoi,
            pos as int,
            res.1 as int,
        ) && stmts_spanned(b.value.stmts@, b.span),
        res.0 matches Some(None) ==> res.1 == pos,
        parsed(
            body_step(tokens@, eoi, pos as int, old(sink)@.skip(from as int)),
            match res.0 {
                Some(b) => Some(body_view(b)),
                None => None,
            },
            res.1,
            from,
            final(sink)@,
        ),
    decreases tokens.len() - pos, 7nat,
{
    let ghost s0 = sink@;
    proof {
        lemma_continues_self(s0);
    }
    if at_punct(tokens, pos, Punctuation::LBrace) {
        let (block, at1) = parse_braced(tokens, eoi, pos, from, sink);
        match block {
            Some(b) => (Some(Some(b)), at1),
            None => (None, at1),
        }
    } else if at_punct(tokens, pos, Punctuation::FatArrow) {
        let (value, at1) = parse_expr(tokens, eoi, pos + 1, from, sink);
        let ghost s1 = sink@;
        match value {
            Some(v) => {
                if at_punct(tokens, at1, Punctuation::Semicolon) {
                    let end = at1 + 1;
                    let span = span_between(tokens, eoi, pos, end);
                    let mut stmts: Vec<Spanned<ParserStmt>> = Vec::new();
                    let stmt = Spanned { span, value: Stmt::Return { value: v, is_yield: false } };
                    proof {
                        lemma_placed_in(
                            tokens@,
                            eoi,
                            pos as int,
                            end as int,
                            pos + 1,
                            at1 as int,
                            v.span,
                        );
                        assert(stmt_spanned(stmt));
                        assert(placed(span, span));
                    }
                    stmts.push(stmt);
                    proof {
                        assert(stmts_view(stmts@.drop_last()) =~= Seq::empty());
                        assert(stmts_view(stmts@) =~= seq![stmt_view(stmt)]);
                        assert(stmts@.drop_last() =~= Seq::empty());
                        assert(stmts@.last() == stmt);
                        assert(stmts_spanned(stmts@.drop_last(), span));
                        assert(stmts_spanned(stmts@, span));
                    }
                    (Some(Some(Spanned { span, value: ParserScope { stmts } })), end)
                } else {
                    unexpected(tokens, eoi, at1, one("';'"), from, sink);
                    proof {
                        lemma_continues(s0, s1, sink@);
                    }
                    (None, at1)
                }
            },
            None => (None, at1),
        }
    } else {
        (Some(None), pos)
    }
}

/// What of a function is read before its return type and body.
pub struct Head {
    pub id: Spanned<Ident>,
    pub linkage: Spanned<Linkage>,
    pub leading: Spanned<Type>,
    pub by_func: bool,
    pub generics: Spanned<Vec<Spanned<Ident>>>,
    pub args: Spanned<Vec<Spanned<TypedIdent>>>,
    pub attribs: Spanned<Attribs>,
}

impl View for Head {
    type V = FuncHead;

    open spec fn view(&self) -> FuncHead {
        FuncHead {
            id: sident_view(self.id),
            linkage: self.linkage,
            leading: stype_view(self.leading),
            by_func: self.by_func,
            generics: Spanned {
                span: self.generics.span,
                value: spanned_idents_view(self.generics.value@),
            },
            args: Spanned {
                span: self.args.span,
                value: spanned_typed_idents_view(self.args.value@),
            },
            attribs: self.attribs,
        }
    }
}

/// The parts of the head lie within `outer`, the arguments and generic
/// parameters within their lists, and the names are plain.
pub open spec fn head_spanned(head: Head, outer: Span) -> bool {
    &&& placed(head.id.span, outer)
    &&& ident_plain(head.id.value)
    &&& placed(head.linkage.span, outer)
    &&& placed(head.leading.span, outer)
    &&& type_plain(head.leading.value)
    &&& placed(head.generics.span, outer)
    &&& idents_spanned(head.generics.value@, head.generics.span)
    &&& placed(head.args.span, outer)
    &&& typed_idents_spanned(head.args.value@, head.args.span)
    &&& placed(head.attribs.span, outer)
}

/// Parses the head of a function. The statement begins at `pos`; the
/// type and the name begin at `start`, after the linkage, if one is
/// written.
pub fn parse_head(
    tokens: &Tokens,
    eoi: Span,
    pos: usize,
    start: usize,
    from: usize,
    sink: &mut Diagnostics,
) -> (res: (Option<Head>, usize))
    requires
        ordered(tokens@, eoi),
        pos <= start <= pos + 1,
        start < tokens.len(),
        from <= old(sink)@.len(),
    ensures
        continues(final(sink)@, old(sink)@),
        pos <= res.1 <= tokens.len(),
        res.0 matches Some(h) ==> pos < res.1 && head_spanned(
            h,
            range_span(tokens@, eoi, pos as int, res.1 as int),
        ),
        parsed(
            head_step(tokens@, eoi, pos as int, start as int, old(sink)@.skip(from as int)),
            match res.0 {
                Some(h) => Some(h@),
                None => None,
            },
            res.1,
            from,
            final(sink)@,
        ),
{
    let ghost s0 = sink@;
    let linkage = Spanned {
        span: span_between(tokens, eoi, pos, start),
        value: if start > pos {
            Linkage::External
        } else {
            Linkage::Default
        },
    };
    let by_func = at_keyword(tokens, start, Keyword::Function);
    let (named, at1) = nodiscard(tokens, eoi, start, from, sink);
    let TypedIdent { ty: leading, ident: id } = match named {
        Some(t) => t.value,
        None => {
            return (None, at1);
        },
    };
    let ghost s3 = sink@;
    let (generics, at2) = parse_generics(tokens, eoi, at1, from, sink);
    let ghost s4 = sink@;
    proof {
        lemma_continues(s0, s3, s4);
    }
    let generics = match generics {
        Some(g) => g,
        None => {
            return (None, at2);
        },
    };
    let (params, at3) = parse_params(tokens, eoi, at2, from, sink);
    let ghost s5 = sink@;
    proof {
        lemma_continues(s0, s4, s5);
    }
    let args = match params {
        Some(a) => a,
        None => {
            return (None, at3);
        },
    };
    let (found, at4) = parse_attribs(tokens, eoi, at3, from, sink);
    let attribs = if at4 == at3 {
        let at = tokens[at3 - 1].1.end;
        Spanned { span: Span { file_id: eoi.file_id, start: at, end: at }, value: found.value }
    } else {
        found
    };
    proof {
        lemma_continues(s0, s5, sink@);
        let t = tokens@;
        let end = at4 as int;
        lemma_range_within(t, eoi, pos as int, end, pos as int, start as int);
        lemma_token_placed(t, eoi, pos as int, end, start as int);
        lemma_token_placed(t, eoi, pos as int, end, start + 1);
        lemma_range_within(t, eoi, pos as int, end, at1 as int, at2 as int);
        lemma_range_within(t, eoi, pos as int, end, at2 as int, at3 as int);
        if at3 < at4 {
            lemma_range_within(t, eoi, pos as int, end, at3 as int, at4 as int);
        } else {
            lemma_token_placed(t, eoi, pos as int, end, at3 - 1);
        }
        lemma_range_within(t, eoi, at1 as int, at2 as int, at1 as int, at2 as int);
        lemma_range_within(t, eoi, at2 as int, at3 as int, at2 as int, at3 as int);
    }
    (Some(Head { id, linkage, leading, by_func, generics, args, attribs }), at4)
}

/// Parses the return type of a function at `pos`: an arrow and a type, or
/// nothing. The outer option says whether parsing went well, the inner
/// one whether there is a type.
pub fn parse_arrow(tokens: &Tokens, eoi: Span, pos: usize, from: usize, sink: &mut Diagnostics) -> (res:
    (Option<Option<Spanned<Type>>>, usize))
    requires
        ordered(tokens@, eoi),
        pos <= tokens.len(),
        from <= old(sink)@.len(),
    ensures
        continues(final(sink)@, old(sink)@),
        pos <= res.1 <= tokens.len(),
        res.0 matches Some(Some(t)) ==> res.1 == pos + 3 && t.span == tokens[pos + 2].1
            && type_plain(t.value),
        res.0 matches Some(None) ==> res.1 == pos,
        parsed(
            arrow_step(tokens@, eoi, pos as int, old(sink)@.skip(from as int)),
            match res.0 {
                Some(a) => Some(crate::parser::view::type_found(a)),
                None => None,
            },
            res.1,
            from,
            final(sink)@,
        ),
{
    proof {
        lemma_continues_self(sink@);
    }
    if at_op(tokens, pos, Operator::Neg) && at_op(tokens, pos + 1, Operator::Gt) {
        let (ret, p) = parse_type(tokens, eoi, pos + 2, from, sink);
        match ret {
            Some(t) => (Some(Some(t)), p),
            None => (None, pos + 2),
        }
    } else {
        (Some(None), pos)
    }
}

/// What lies within a span lies within every span around it.
pub proof fn lemma_head_widen(head: Head, outer: Span, wider: Span)
    requires
        head_spanned(head, outer),
        outer.within(wider),
    ensures
        head_spanned(head, wider),
{
}

/// The function of a head, a return type and a body, at `span`.
fn func_stmt(span: Span, head: Head, return_ty: Spanned<Type>, body: Option<Spanned<ParserScope>>) -> (stmt:
    Spanned<ParserStmt>)
    requires
        span.start <= span.end,
        head_spanned(head, span),
        placed(return_ty.span, span),
        type_plain(return_ty.value),
        body matches Some(b) ==> placed(b.span, span) && stmts_spanned(b.value.stmts@, b.span),
    ensures
        stmt.span == span,
        stmt_spanned(stmt),
        stmt_view(stmt).value == (StmtView::Func {
            id: head@.id,
            signature: SignatureView {
                attribs: head@.attribs,
                linkage: head@.linkage,
                return_ty: stype_view(return_ty),
                args: head@.args,
                generics: head@.generics,
            },
            body: body_view(body),
        }),
{
    let Head { id, linkage, leading: _, by_func: _, generics, args, attribs } = head;
    let signature = Signature { attribs, linkage, return_ty, args, generics };
    Spanned { span, value: Stmt::Func { id, signature, body } }
}

/// The return type of a function: the type after the arrow, if there is
/// one; else the type to be inferred where the function is introduced by
/// `func`, and the introducing type where it is introduced by a type.
fn return_type_of(leading: &Spanned<Type>, by_func: bool, arrow: Option<Spanned<Type>>) -> (ty:
    Spanned<Type>)
    requires
        type_plain(leading.value),
        arrow matches Some(t) ==> type_plain(t.value),
    ensures
        type_plain(ty.value),
        ty.span == (match arrow {
            Some(t) => t.span,
            None => leading.span,
        }),
        stype_view(ty) == (match arrow {
            Some(t) => stype_view(t),
            None => if by_func {
                Spanned { span: leading.span, value: TypeView::Inferred }
            } else {
                stype_view(*leading)
            },
        }),
{
    match arrow {
        Some(t) => t,
        None => {
            if by_func {
                Spanned { span: leading.span, value: Type::Inferred }
            } else {
                Spanned { span: leading.span, value: leading.value.clone() }
            }
        },
    }
}

/// Parses the body of the function that began at `pos`, whose head ends
/// at `after` and whose return type ends at `cur`, and the semicolons
/// that may follow it.
pub fn finish_func(
    tokens: &Tokens,
    eoi: Span,
    pos: usize,
    after: usize,
    cur: usize,
    head: Head,
    arrow: Option<Spanned<Type>>,
    from: usize,
    sink: &mut Diagnostics,
) -> (res: (Option<Spanned<ParserStmt>>, usize))
    requires
        ordered(tokens@, eoi),
        pos < after <= cur <= tokens.len(),
        head_spanned(head, range_span(tokens@, eoi, pos as int, after as int)),
        arrow matches Some(t) ==> cur == after + 3 && t.span == tokens[after + 2].1 && type_plain(
            t.value,
        ),
        arrow is None ==> cur == after,
        from <= old(sink)@.len(),
    ensures
        continues(final(sink)@, old(sink)@),
        stmt_at(res.0, tokens@, eoi, pos as int, res.1 as int),
        parsed(
            func_body_step(
                tokens@,
                eoi,
                pos as int,
                cur as int,
                head@,
                crate::parser::view::type_found(arrow),
                old(sink)@.skip(from as int),
            ),
            stmt_found(res.0),
            res.1,
            from,
            final(sink)@,
        ),
    decreases tokens.len() - pos, 8nat,
{
    let ghost s0 = sink@;
    proof {
        lemma_continues_self(s0);
    }
    if arrow.is_some() && !head.by_func {
        custom(head.leading.span, "return type given twice", from, sink);
    }
    let ghost s1 = sink@;
    let ghost arrow_given = arrow is Some;
    let return_ty = return_type_of(&head.leading, head.by_func, arrow);
    let (body, at6) = parse_body(tokens, eoi, cur, from, sink);
    proof {
        lemma_continues(s0, s1, sink@);
    }
    let body = match body {
        Some(b) => b,
        None => {
            return (None, at6);
        },
    };
    let end = skip_semis(tokens, at6);
    let span = span_between(tokens, eoi, pos, end);
    proof {
        lemma_func_spans(
            tokens@,
            eoi,
            pos as int,
            after as int,
            cur as int,
            at6 as int,
            end as int,
            head,
            return_ty.span,
            arrow_given,
            body,
        );
    }
    (Some(func_stmt(span, head, return_ty, body)), end)
}

/// The parts of a function lie within the tokens of the function: its
/// head, which ends at `after`, its return type, which is the token
/// before `cur` where `given` says that it is written and stands in the
/// head where not, and its body, which ends at `done`.
proof fn lemma_func_spans(
    tokens: Seq<SpannedRaw<Token>>,
    eoi: Span,
    pos: int,
    after: int,
    cur: int,
    done: int,
    end: int,
    head: Head,
    return_span: Span,
    given: bool,
    body: Option<Spanned<ParserScope>>,
)
    requires
        ordered(tokens, eoi),
        0 <= pos < after <= cur <= done <= end <= tokens.len(),
        head_spanned(head, range_span(tokens, eoi, pos, after)),
        given ==> cur == after + 3 && return_span == tokens[after + 2].1,
        !given ==> return_span == head.leading.span,
        body matches Some(b) ==> cur < done && b.span == range_span(tokens, eoi, cur, done),
    ensures
        range_span(tokens, eoi, pos, end).start <= range_span(tokens, eoi, pos, end).end,
        head_spanned(head, range_span(tokens, eoi, pos, end)),
        placed(return_span, range_span(tokens, eoi, pos, end)),
        body matches Some(b) ==> placed(b.span, range_span(tokens, eoi, pos, end)),
{
    lemma_range_within(tokens, eoi, pos, end, pos, after);
    lemma_head_widen(head, range_span(tokens, eoi, pos, after), range_span(tokens, eoi, pos, end));
    if given {
        lemma_token_placed(tokens, eoi, pos, end, after + 2);
    }
    if body is Some {
        lemma_range_within(tokens, eoi, pos, end, cur, done);
    }
}

/// Parses a function. The statement begins at `pos`; the type and the
/// name begin at `start`, after the linkage, if one is written.
pub fn parse_func(
    tokens: &Tokens,
    eoi: Span,
    pos: usize,
    start: usize,
    from: usize,
    sink: &mut Diagnostics,
) -> (res: (Option<Spanned<ParserStmt>>, usize))
    requires
        ordered(tokens@, eoi),
        pos <= start <= pos + 1,
        start < tokens.len(),
        from <= old(sink)@.len(),
    ensures
        continues(final(sink)@, old(sink)@),
        stmt_at(res.0, tokens@, eoi, pos as int, res.1 as int),
        parsed(
            func_step(tokens@, eoi, pos as int, start as int, old(sink)@.skip(from as int)),
            stmt_found(res.0),
            res.1,
            from,
            final(sink)@,
        ),
    decreases tokens.len() - pos, 9nat,
{
    let ghost s0 = sink@;
    let (head, at4) = parse_head(tokens, eoi, pos, start, from, sink);
    let head = match head {
        Some(h) => h,
        None => {
            return (None, at4);
        },
    };
    let ghost s1 = sink@;
    let (arrow, at5) = parse_arrow(tokens, eoi, at4, from, sink);
    let ghost s2 = sink@;
    proof {
        lemma_continues(s0, s1, s2);
    }
    let arrow = match arrow {
        Some(a) => a,
        None => {
            return (None, at5);
        },
    };
    let res = finish_func(tokens, eoi, pos, at4, at5, head, arrow, from, sink);
    proof {
        lemma_continues(s0, s2, sink@);
    }
    res
}

/// Parses one statement.
pub fn parse_stmt(tokens: &Tokens, eoi: Span, pos: usize, from: usize, sink: &mut Diagnostics) -> (res:
    (Option<Spanned<ParserStmt>>, usize))
    requires
        ordered(tokens@, eoi),
        pos < tokens.len(),
        from <= old(sink)@.len(),
    ensures
        continues(final(sink)@, old(sink)@),
        stmt_at(res.0, tokens@, eoi, pos as int, res.1 as int),
        parsed(
            stmt_step(tokens@, eoi, pos as int, old(sink)@.skip(from as int)),
            stmt_found(res.0),
            res.1,
            from,
            final(sink)@,
        ),
    decreases tokens.len() - pos, 10nat,
{
    if at_keyword(tokens, pos, Keyword::Return) {
        return parse_return(tokens, eoi, pos, false, from, sink);
    }
    if at_keyword(tokens, pos, Keyword::Yield) {
        return parse_return(tokens, eoi, pos, true, from, sink);
    }
    if at_keyword(tokens, pos, Keyword::Let) {
        return parse_binding(tokens, eoi, pos, false, from, sink);
    }
    if at_keyword(tokens, pos, Keyword::Mut) {
        return parse_binding(tokens, eoi, pos, true, from, sink);
    }
    if at_keyword(tokens, pos, Keyword::External) {
        if pos + 1 < tokens.len() {
            return parse_func(tokens, eoi, pos, pos + 1, from, sink);
        }
        proof {
            lemma_continues_self(sink@);
        }
        unexpected(tokens, eoi, pos + 1, one("a type"), from, sink);
        return (None, pos + 1);
    }
    if at_word(tokens, pos) {
        if at_word(tokens, pos + 1) {
            if at_punct(tokens, pos + 2, Punctuation::LParen) || at_op(
                tokens,
                pos + 2,
                Operator::Lt,
            ) {
                return parse_func(tokens, eoi, pos, pos, from, sink);
            }
            let ghost s0 = sink@;
            let (typed, at1) = ty_ident(tokens, eoi, pos, from, sink);
            return match typed {
                Some(ty_id) => {
                    proof {
                        lemma_range_within(tokens@, eoi, pos as int, pos + 2, pos as int, pos + 2);
                    }
                    let ghost s2 = sink@;
                    let res = finish_create(
                        tokens,
                        eoi,
                        pos,
                        pos + 2,
                        ty_id,
                        false,
                        false,
                        from,
                        sink,
                    );
                    proof {
                        lemma_continues(s0, s2, sink@);
                    }
                    res
                },
                None => (None, at1),
            };
        }
        if at_assign(tokens, pos + 1) {
            return parse_assign(tokens, eoi, pos, None, from, sink);
        }
        match compound_op(tokens, pos + 1) {
            Some(op) => {
                if at_assign(tokens, pos + 2) {
                    return parse_assign(tokens, eoi, pos, Some(op), from, sink);
                }
            },
            None => {},
        }
    }
    parse_expr_stmt(tokens, eoi, pos, from, sink)
}

/// Where parsing goes on after a statement that failed at `failed`: after
/// the next semicolon, or, inside braces, at the brace that closes them;
/// in any case after `cur`, where the statement began. A closing brace
/// that nothing opened is skipped alone.
pub fn recover(tokens: &Tokens, cur: usize, failed: usize, in_braces: bool) -> (next: usize)
    requires
        cur < tokens.len(),
        cur <= failed <= tokens.len(),
    ensures
        cur < next <= tokens.len(),
        next == recover_at(tokens@, cur as int, failed as int, in_braces),
{
    if !in_braces && failed == cur && at_punct(tokens, cur, Punctuation::RBrace) {
        return cur + 1;
    }
    let mut q = failed;
    let mut depth: usize = 0;
    while q < tokens.len()
        invariant
            cur <= q <= tokens.len(),
            depth <= q,
            recover_at(tokens@, cur as int, failed as int, in_braces) == recover_loop(
                tokens@,
                cur as int,
                q as int,
                depth as nat,
                in_braces,
            ),
        decreases tokens.len() - q,
    {
        if at_punct(tokens, q, Punctuation::Semicolon) && depth == 0 {
            return q + 1;
        }
        if at_punct(tokens, q, Punctuation::LBrace) {
            depth += 1;
        } else if at_punct(tokens, q, Punctuation::RBrace) {
            if depth > 0 {
                depth -= 1;
            } else if in_braces && q > cur {
                return q;
            }
        }
        q += 1;
    }
    q
}

/// Parses statements from `pos` to the end of the tokens or, inside
/// braces, to the brace that closes them. A statement that does not
/// parse is reported and skipped.
pub fn parse_stmts(
    tokens: &Tokens,
    eoi: Span,
    pos: usize,
    in_braces: bool,
    from: usize,
    sink: &mut Diagnostics,
) -> (res: (Vec<Spanned<ParserStmt>>, usize))
    requires
        ordered(tokens@, eoi),
        pos <= tokens.len(),
        from <= old(sink)@.len(),
    ensures
        continues(final(sink)@, old(sink)@),
        pos <= res.1 <= tokens.len(),
        stmts_spanned(res.0@, range_span(tokens@, eoi, pos as int, res.1 as int)),
        !in_braces ==> res.1 == tokens.len(),
        parsed(
            stmts_loop(
                tokens@,
                eoi,
                pos as int,
                in_braces,
                Seq::empty(),
                old(sink)@.skip(from as int),
            ),
            stmts_view(res.0@),
            res.1,
            from,
            final(sink)@,
        ),
    decreases tokens.len() - pos, 11nat,
{
    let ghost s0 = sink@;
    let ghost goal = stmts_loop(
        tokens@,
        eoi,
        pos as int,
        in_braces,
        Seq::empty(),
        s0.skip(from as int),
    );
    let mut stmts: Vec<Spanned<ParserStmt>> = Vec::new();
    let mut cur = pos;
    proof {
        lemma_continues_self(s0);
        assert(stmts_view(stmts@) =~= Seq::empty());
    }
    while cur < tokens.len() && !(in_braces && at_punct(tokens, cur, Punctuation::RBrace))
        invariant
            ordered(tokens@, eoi),
            pos <= cur <= tokens.len(),
            from <= s0.len(),
            continues(sink@, s0),
            s0 == old(sink)@,
            stmts_spanned(stmts@, range_span(tokens@, eoi, pos as int, cur as int)),
            goal == stmts_loop(
                tokens@,
                eoi,
                pos as int,
                in_braces,
                Seq::empty(),
                old(sink)@.skip(from as int),
            ),
            goal == stmts_loop(
                tokens@,
                eoi,
                cur as int,
                in_braces,
                stmts_view(stmts@),
                sink@.skip(from as int),
            ),
        decreases tokens.len() - cur,
    {
        let ghost s1 = sink@;
        let ghost before = stmts@;
        let (stmt, at1) = parse_stmt(tokens, eoi, cur, from, sink);
        proof {
            lemma_continues(s0, s1, sink@);
        }
        let next = match stmt {
            Some(s) => {
                stmts.push(s);
                proof {
                    lemma_stmts_view_push(before, s);
                    assert(stmts@.drop_last() =~= before);
                    lemma_range_within(tokens@, eoi, pos as int, at1 as int, cur as int, at1 as int);
                    lemma_range_within(tokens@, eoi, cur as int, at1 as int, cur as int, at1 as int);
                }
                at1
            },
            None => recover(tokens, cur, at1, in_braces),
        };
        proof {
            lemma_range_within(tokens@, eoi, pos as int, next as int, pos as int, cur as int);
            lemma_stmts_widen(
                before,
                range_span(tokens@, eoi, pos as int, cur as int),
                range_span(tokens@, eoi, pos as int, next as int),
            );
        }
        cur = next;
    }
    (stmts, cur)
}

} // verus!
