//! Expressions and types.
//!
//! From loosest to tightest: sums and differences, products and
//! quotients, negation, calls, and atoms. An atom is an expression in
//! parentheses, a number literal, a name, or a scope in braces.

use crate::common::diagnostics::{continues, lemma_continues, lemma_continues_self, Diagnostics};
use crate::common::expr::Expr;
use crate::common::func::spanned_types_view;
use crate::common::ident::Ident;
use crate::common::span::{Span, Spanned, SpannedRaw};
use crate::common::typed_ident::TypedIdent;
use crate::common::types::{BuiltIn, Type};
use crate::lexer::{Keyword, Operator, Punctuation, Token};
use crate::parser::cursor::{
    at_op, at_punct, cover, cover_spans, custom, lemma_range_within, one, ordered, range_span,
    span_at, span_between, two, unclosed, unexpected, Tokens,
};
use crate::parser::spec::{
    add_loop, add_op_at, add_step, args_loop, atom_step, braced_step, call_args, call_loop,
    call_step, expr_step, ident_nodiscard_step, ident_step, mul_loop, mul_op_at, mul_step, parsed,
    ty_ident_step, type_list_step, type_step, unary_step,
};
use crate::parser::stmt::parse_stmts;
use crate::parser::types::{
    expr_spanned, exprs_spanned, ident_plain, lemma_exprs_widen, lemma_stmts_widen,
    lemma_stypes_widen, placed, stmts_spanned, stypes_spanned, type_plain, typed_ident_spanned,
    ParserExpr, ParserScope,
};
use crate::parser::view::{
    expr_found, exprs_view, ident_found, lemma_exprs_view_push, scope_found, sexpr_view,
    type_found, typed_found,
};
use vstd::prelude::*;

verus! {

/// What parsing from `pos` may return: where it stopped, and, if it
/// succeeded, a node that took at least one token and lies, span within
/// span, within the tokens it took.
pub open spec fn expr_at(
    res: Option<Spanned<ParserExpr>>,
    tokens: Seq<SpannedRaw<Token>>,
    eoi: Span,
    pos: int,
    end: int,
) -> bool {
    &&& pos <= end <= tokens.len()
    &&& res matches Some(e) ==> pos < end && placed(e.span, range_span(tokens, eoi, pos, end))
        && expr_spanned(e)
}

/// A token lies within the span of a range that holds it.
pub proof fn lemma_token_placed(tokens: Seq<SpannedRaw<Token>>, eoi: Span, a: int, b: int, k: int)
    requires
        ordered(tokens, eoi),
        0 <= a <= k < b <= tokens.len(),
    ensures
        placed(tokens[k].1, range_span(tokens, eoi, a, b)),
        tokens[k].1 == range_span(tokens, eoi, k, k + 1),
{
    lemma_range_within(tokens, eoi, a, b, k, k + 1);
}

/// The cover of a node on the left and a node on the right lies within
/// the tokens of both, and holds both and every token between them.
pub proof fn lemma_cover(
    tokens: Seq<SpannedRaw<Token>>,
    eoi: Span,
    a: int,
    k: int,
    k2: int,
    b: int,
    l: Span,
    r: Span,
)
    requires
        ordered(tokens, eoi),
        0 <= a < k <= k2 < b <= tokens.len(),
        placed(l, range_span(tokens, eoi, a, k)),
        placed(r, range_span(tokens, eoi, k2, b)),
    ensures
        placed(cover(l, r), range_span(tokens, eoi, a, b)),
        placed(l, cover(l, r)),
        placed(r, cover(l, r)),
        forall|m: int| k <= m < k2 ==> placed(#[trigger] tokens[m].1, cover(l, r)),
{
    lemma_range_within(tokens, eoi, a, b, a, k);
    lemma_range_within(tokens, eoi, a, b, k2, b);
    assert(tokens[k - 1].1.end <= tokens[k2].1.start);
    assert forall|m: int| k <= m < k2 implies placed(#[trigger] tokens[m].1, cover(l, r)) by {
        assert(tokens[k - 1].1.end <= tokens[m].1.start);
        assert(tokens[m].1.end <= tokens[k2].1.start);
    }
}

/// Parses a type: one word. The name of a built-in type is that type, the
/// wildcard is the type to be inferred, any other word names a type of
/// the program.
pub fn parse_type(tokens: &Tokens, eoi: Span, pos: usize, from: usize, sink: &mut Diagnostics) -> (res:
    (Option<Spanned<Type>>, usize))
    requires
        ordered(tokens@, eoi),
        pos <= tokens.len(),
        from <= old(sink)@.len(),
    ensures
        continues(final(sink)@, old(sink)@),
        res.0 is None ==> res.1 == pos,
        res.0 matches Some(t) ==> res.1 == pos + 1 && pos < tokens.len() && t.span
            == tokens[pos as int].1 && type_plain(t.value) && t.span.start <= t.span.end,
        parsed(
            type_step(tokens@, eoi, pos as int, old(sink)@.skip(from as int)),
            type_found(res.0),
            res.1,
            from,
            final(sink)@,
        ),
{
    proof {
        lemma_continues_self(sink@);
    }
    if pos < tokens.len() {
        match &tokens[pos].0 {
            Token::Identifier(word) => {
                let value = match BuiltIn::from_name(word.as_str()) {
                    Some(b) => Type::BuiltIn(b),
                    None => {
                        if tokens[pos].0.is_keyword(Keyword::DontCare) {
                            Type::Inferred
                        } else {
                            Type::User(Ident::Named(word.clone()))
                        }
                    },
                };
                return (Some(Spanned { span: tokens[pos].1, value }), pos + 1);
            },
            _ => {},
        }
    }
    unexpected(tokens, eoi, pos, one("a type"), from, sink);
    (None, pos)
}

/// Parses a name: one word, the wildcard or any other.
pub fn parse_ident(tokens: &Tokens, eoi: Span, pos: usize, from: usize, sink: &mut Diagnostics) -> (res:
    (Option<Spanned<Ident>>, usize))
    requires
        ordered(tokens@, eoi),
        pos <= tokens.len(),
        from <= old(sink)@.len(),
    ensures
        continues(final(sink)@, old(sink)@),
        res.0 is None ==> res.1 == pos,
        res.0 matches Some(i) ==> res.1 == pos + 1 && pos < tokens.len() && i.span
            == tokens[pos as int].1 && ident_plain(i.value) && i.span.start <= i.span.end,
        parsed(
            ident_step(tokens@, eoi, pos as int, old(sink)@.skip(from as int)),
            ident_found(res.0),
            res.1,
            from,
            final(sink)@,
        ),
{
    proof {
        lemma_continues_self(sink@);
    }
    if pos < tokens.len() {
        match &tokens[pos].0 {
            Token::Identifier(word) => {
                let value = if tokens[pos].0.is_keyword(Keyword::DontCare) {
                    Ident::Discarded
                } else {
                    Ident::Named(word.clone())
                };
                return (Some(Spanned { span: tokens[pos].1, value }), pos + 1);
            },
            _ => {},
        }
    }
    unexpected(tokens, eoi, pos, one("an identifier"), from, sink);
    (None, pos)
}

/// Parses a name that binds: one word. The wildcard is reported, and
/// returned all the same.
pub fn ident_nodiscard(
    tokens: &Tokens,
    eoi: Span,
    pos: usize,
    from: usize,
    sink: &mut Diagnostics,
) -> (res: (Option<Spanned<Ident>>, usize))
    requires
        ordered(tokens@, eoi),
        pos <= tokens.len(),
        from <= old(sink)@.len(),
    ensures
        continues(final(sink)@, old(sink)@),
        res.0 is None ==> res.1 == pos,
        res.0 matches Some(i) ==> res.1 == pos + 1 && pos < tokens.len() && i.span
            == tokens[pos as int].1 && ident_plain(i.value) && i.span.start <= i.span.end,
        parsed(
            ident_nodiscard_step(tokens@, eoi, pos as int, old(sink)@.skip(from as int)),
            ident_found(res.0),
            res.1,
            from,
            final(sink)@,
        ),
{
    let ghost s0 = sink@;
    let (ident, end) = parse_ident(tokens, eoi, pos, from, sink);
    let ghost s1 = sink@;
    let discarded = match &ident {
        Some(i) => i.value.is_discarded(),
        None => false,
    };
    if discarded {
        custom(
            span_at(tokens, eoi, pos),
            "discarded ident was used where it is disallowed",
            from,
            sink,
        );
        proof {
            lemma_continues(s0, s1, sink@);
        }
    }
    (ident, end)
}

/// Parses a type and a name, which `binding` says is one that binds.
fn typed(
    tokens: &Tokens,
    eoi: Span,
    pos: usize,
    binding: bool,
    from: usize,
    sink: &mut Diagnostics,
) -> (res: (Option<Spanned<TypedIdent>>, usize))
    requires
        ordered(tokens@, eoi),
        pos <= tokens.len(),
        from <= old(sink)@.len(),
    ensures
        continues(final(sink)@, old(sink)@),
        pos <= res.1 <= tokens.len(),
        res.0 matches Some(t) ==> res.1 == pos + 2 && t.span == range_span(
            tokens@,
            eoi,
            pos as int,
            pos + 2,
        ) && typed_ident_spanned(t),
        parsed(
            ty_ident_step(tokens@, eoi, pos as int, binding, old(sink)@.skip(from as int)),
            typed_found(res.0),
            res.1,
            from,
            final(sink)@,
        ),
{
    let ghost s0 = sink@;
    let (ty, at1) = parse_type(tokens, eoi, pos, from, sink);
    let t = match ty {
        Some(t) => t,
        None => {
            return (None, pos);
        },
    };
    let ghost s1 = sink@;
    let (ident, at2) = if binding {
        ident_nodiscard(tokens, eoi, at1, from, sink)
    } else {
        parse_ident(tokens, eoi, at1, from, sink)
    };
    proof {
        lemma_continues(s0, s1, sink@);
    }
    match ident {
        Some(i) => {
            let span = span_between(tokens, eoi, pos, at2);
            proof {
                lemma_token_placed(tokens@, eoi, pos as int, pos + 2, pos as int);
                lemma_token_placed(tokens@, eoi, pos as int, pos + 2, pos + 1);
                lemma_range_within(tokens@, eoi, pos as int, pos + 2, pos as int, pos + 2);
            }
            (Some(Spanned { span, value: TypedIdent { ty: t, ident: i } }), at2)
        },
        None => (None, at1),
    }
}

/// Parses a type and a name: two words.
pub fn ty_ident(tokens: &Tokens, eoi: Span, pos: usize, from: usize, sink: &mut Diagnostics) -> (res:
    (Option<Spanned<TypedIdent>>, usize))
    requires
        ordered(tokens@, eoi),
        pos <= tokens.len(),
        from <= old(sink)@.len(),
    ensures
        continues(final(sink)@, old(sink)@),
        pos <= res.1 <= tokens.len(),
        res.0 matches Some(t) ==> res.1 == pos + 2 && t.span == range_span(
            tokens@,
            eoi,
            pos as int,
            pos + 2,
        ) && typed_ident_spanned(t),
        parsed(
            ty_ident_step(tokens@, eoi, pos as int, false, old(sink)@.skip(from as int)),
            typed_found(res.0),
            res.1,
            from,
            final(sink)@,
        ),
{
    typed(tokens, eoi, pos, false, from, sink)
}

/// Parses a type and a name that binds: two words. The wildcard as the
/// name is reported.
pub fn nodiscard(tokens: &Tokens, eoi: Span, pos: usize, from: usize, sink: &mut Diagnostics) -> (res:
    (Option<Spanned<TypedIdent>>, usize))
    requires
        ordered(tokens@, eoi),
        pos <= tokens.len(),
        from <= old(sink)@.len(),
    ensures
        continues(final(sink)@, old(sink)@),
        pos <= res.1 <= tokens.len(),
        res.0 matches Some(t) ==> res.1 == pos + 2 && t.span == range_span(
            tokens@,
            eoi,
            pos as int,
            pos + 2,
        ) && typed_ident_spanned(t),
        parsed(
            ty_ident_step(tokens@, eoi, pos as int, true, old(sink)@.skip(from as int)),
            typed_found(res.0),
            res.1,
            from,
            final(sink)@,
        ),
{
    typed(tokens, eoi, pos, true, from, sink)
}

/// Parses a scope in braces, from its opening brace at `pos` to its
/// closing brace.
pub fn parse_braced(tokens: &Tokens, eoi: Span, pos: usize, from: usize, sink: &mut Diagnostics) -> (res:
    (Option<Spanned<ParserScope>>, usize))
    requires
        ordered(tokens@, eoi),
        pos < tokens.len(),
        tokens[pos as int].0 == Token::Punctuation(Punctuation::LBrace),
        from <= old(sink)@.len(),
    ensures
        continues(final(sink)@, old(sink)@),
        pos <= res.1 <= tokens.len(),
        res.0 matches Some(b) ==> pos < res.1 && b.span == range_span(
            tokens@,
            eoi,
            pos as int,
            res.1 as int,
        ) && stmts_spanned(b.value.stmts@, b.span),
        parsed(
            braced_step(tokens@, eoi, pos as int, old(sink)@.skip(from as int)),
            scope_found(res.0),
            res.1,
            from,
            final(sink)@,
        ),
    decreases tokens.len() - pos, 0nat,
{
    let ghost s0 = sink@;
    let (stmts, at1) = parse_stmts(tokens, eoi, pos + 1, true, from, sink);
    let ghost s1 = sink@;
    if at_punct(tokens, at1, Punctuation::RBrace) {
        let span = span_between(tokens, eoi, pos, at1 + 1);
        proof {
            lemma_range_within(tokens@, eoi, pos as int, at1 + 1, pos + 1, at1 as int);
            lemma_stmts_widen(stmts@, range_span(tokens@, eoi, pos + 1, at1 as int), span);
        }
        (Some(Spanned { span, value: ParserScope { stmts } }), at1 + 1)
    } else {
        unclosed(tokens, eoi, at1, tokens[pos].1, "{", from, sink);
        proof {
            lemma_continues(s0, s1, sink@);
        }
        (None, at1)
    }
}

/// Parses an atom: an expression in parentheses, a number literal, a
/// name, or a scope in braces.
pub fn parse_atom(tokens: &Tokens, eoi: Span, pos: usize, from: usize, sink: &mut Diagnostics) -> (res:
    (Option<Spanned<ParserExpr>>, usize))
    requires
        ordered(tokens@, eoi),
        pos <= tokens.len(),
        from <= old(sink)@.len(),
    ensures
        continues(final(sink)@, old(sink)@),
        expr_at(res.0, tokens@, eoi, pos as int, res.1 as int),
        parsed(
            atom_step(tokens@, eoi, pos as int, old(sink)@.skip(from as int)),
            expr_found(res.0),
            res.1,
            from,
            final(sink)@,
        ),
    decreases tokens.len() - pos, 1nat,
{
    let ghost s0 = sink@;
    proof {
        lemma_continues_self(s0);
    }
    if pos >= tokens.len() {
        unexpected(tokens, eoi, pos, one("an expression"), from, sink);
        return (None, pos);
    }
    match &tokens[pos].0 {
        Token::NumberLiteral(n) => {
            proof {
                lemma_token_placed(tokens@, eoi, pos as int, pos + 1, pos as int);
            }
            (Some(Spanned { span: tokens[pos].1, value: Expr::NumberLiteral(n.clone()) }), pos + 1)
        },
        Token::Identifier(word) => {
            let ident = if tokens[pos].0.is_keyword(Keyword::DontCare) {
                Ident::Discarded
            } else {
                Ident::Named(word.clone())
            };
            proof {
                lemma_token_placed(tokens@, eoi, pos as int, pos + 1, pos as int);
            }
            (Some(Spanned { span: tokens[pos].1, value: Expr::Identifier(ident) }), pos + 1)
        },
        Token::Punctuation(Punctuation::LParen) => {
            let (inner, at1) = parse_expr(tokens, eoi, pos + 1, from, sink);
            let ghost s1 = sink@;
            match inner {
                Some(e) => {
                    if at_punct(tokens, at1, Punctuation::RParen) {
                        proof {
                            lemma_range_within(
                                tokens@,
                                eoi,
                                pos as int,
                                at1 + 1,
                                pos + 1,
                                at1 as int,
                            );
                        }
                        (Some(e), at1 + 1)
                    } else {
                        unclosed(tokens, eoi, at1, tokens[pos].1, "(", from, sink);
                        proof {
                            lemma_continues(s0, s1, sink@);
                        }
                        (None, at1)
                    }
                },
                None => (None, at1),
            }
        },
        Token::Punctuation(Punctuation::LBrace) => {
            let (block, at1) = parse_braced(tokens, eoi, pos, from, sink);
            match block {
                Some(b) => {
                    proof {
                        lemma_range_within(tokens@, eoi, pos as int, at1 as int, pos as int, at1 as int);
                    }
                    (Some(Spanned { span: b.span, value: Expr::Scope(b.value) }), at1)
                },
                None => (None, at1),
            }
        },
        _ => {
            unexpected(tokens, eoi, pos, one("an expression"), from, sink);
            (None, pos)
        },
    }
}

/// The views of types with one more are the views with one more.
pub proof fn lemma_types_view_push(types: Seq<Spanned<Type>>, t: Spanned<Type>)
    ensures
        spanned_types_view(types.push(t)) == spanned_types_view(types).push(
            crate::parser::view::stype_view(t),
        ),
{
    assert(spanned_types_view(types.push(t)) =~= spanned_types_view(types).push(
        crate::parser::view::stype_view(t),
    ));
}

/// Parses types between angle brackets, from after the opening one at
/// `open` to the closing one: types with commas between them, and maybe
/// one after the last.
pub fn parse_type_list(
    tokens: &Tokens,
    eoi: Span,
    open: usize,
    from: usize,
    sink: &mut Diagnostics,
) -> (res: (Option<Vec<Spanned<Type>>>, usize))
    requires
        ordered(tokens@, eoi),
        open < tokens.len(),
        from <= old(sink)@.len(),
    ensures
        continues(final(sink)@, old(sink)@),
        open < res.1 <= tokens.len(),
        res.0 matches Some(types) ==> stypes_spanned(
            types@,
            range_span(tokens@, eoi, open as int, res.1 as int),
        ),
        parsed(
            type_list_step(
                tokens@,
                eoi,
                open as int,
                open + 1,
                Seq::empty(),
                old(sink)@.skip(from as int),
            ),
            match res.0 {
                Some(types) => Some(spanned_types_view(types@)),
                None => None,
            },
            res.1,
            from,
            final(sink)@,
        ),
{
    let ghost s0 = sink@;
    let ghost goal = type_list_step(
        tokens@,
        eoi,
        open as int,
        open + 1,
        Seq::empty(),
        s0.skip(from as int),
    );
    let mut types: Vec<Spanned<Type>> = Vec::new();
    let mut cur = open + 1;
    proof {
        lemma_continues_self(s0);
        assert(spanned_types_view(types@) =~= Seq::empty());
    }
    loop
        invariant
            ordered(tokens@, eoi),
            open < cur <= tokens.len(),
            from <= s0.len(),
            continues(sink@, s0),
            s0 == old(sink)@,
            forall|j: int| 0 <= j < types.len() ==> type_plain((#[trigger] types[j]).value),
            forall|j: int|
                0 <= j < types.len() ==> exists|k: int|
                    open < k < cur && (#[trigger] types[j]).span == tokens[k].1,
            goal == type_list_step(
                tokens@,
                eoi,
                open as int,
                open + 1,
                Seq::empty(),
                old(sink)@.skip(from as int),
            ),
            goal == type_list_step(
                tokens@,
                eoi,
                open as int,
                cur as int,
                spanned_types_view(types@),
                sink@.skip(from as int),
            ),
        decreases tokens.len() - cur,
    {
        if at_op(tokens, cur, Operator::Gt) {
            let end = cur + 1;
            proof {
                lemma_types_in(tokens@, eoi, open as int, end as int, types@);
            }
            return (Some(types), end);
        }
        let ghost s1 = sink@;
        let ghost before = types@;
        let (ty, at1) = parse_type(tokens, eoi, cur, from, sink);
        proof {
            lemma_continues(s0, s1, sink@);
        }
        match ty {
            Some(t) => {
                types.push(t);
                proof {
                    lemma_types_view_push(before, t);
                }
                if at_punct(tokens, at1, Punctuation::Comma) {
                    cur = at1 + 1;
                } else if at_op(tokens, at1, Operator::Gt) {
                    cur = at1;
                } else {
                    let ghost s2 = sink@;
                    unclosed(tokens, eoi, at1, tokens[open].1, "<", from, sink);
                    proof {
                        lemma_continues(s0, s2, sink@);
                    }
                    return (None, at1);
                }
            },
            None => {
                return (None, cur);
            },
        }
    }
}

/// Types that are tokens of a range lie within the span of the range.
pub proof fn lemma_types_in(
    tokens: Seq<SpannedRaw<Token>>,
    eoi: Span,
    a: int,
    b: int,
    types: Seq<Spanned<Type>>,
)
    requires
        ordered(tokens, eoi),
        0 <= a < b <= tokens.len(),
        forall|j: int| 0 <= j < types.len() ==> type_plain((#[trigger] types[j]).value),
        forall|j: int|
            0 <= j < types.len() ==> exists|k: int| a <= k < b && (#[trigger] types[j]).span
                == tokens[k].1,
    ensures
        stypes_spanned(types, range_span(tokens, eoi, a, b)),
    decreases types.len(),
{
    if types.len() > 0 {
        let last = types.last();
        let k = choose|k: int| a <= k < b && last.span == tokens[k].1;
        lemma_token_placed(tokens, eoi, a, b, k);
        assert forall|j: int| 0 <= j < types.drop_last().len() implies exists|k: int|
            a <= k < b && (#[trigger] types.drop_last()[j]).span == tokens[k].1 by {
            assert(types.drop_last()[j] == types[j]);
        }
        assert forall|j: int| 0 <= j < types.drop_last().len() implies type_plain(
            (#[trigger] types.drop_last()[j]).value,
        ) by {
            assert(types.drop_last()[j] == types[j]);
        }
        lemma_types_in(tokens, eoi, a, b, types.drop_last());
    }
}

/// Parses the arguments of a call, from after the opening parenthesis at
/// `open` to the closing one: expressions with commas between them, and
/// maybe one after the last.
pub fn parse_args(tokens: &Tokens, eoi: Span, open: usize, from: usize, sink: &mut Diagnostics) -> (res:
    (Option<Vec<Spanned<ParserExpr>>>, usize))
    requires
        ordered(tokens@, eoi),
        open < tokens.len(),
        from <= old(sink)@.len(),
    ensures
        continues(final(sink)@, old(sink)@),
        open < res.1 <= tokens.len(),
        res.0 matches Some(args) ==> exprs_spanned(
            args@,
            range_span(tokens@, eoi, open as int, res.1 as int),
        ),
        parsed(
            args_loop(
                tokens@,
                eoi,
                open as int,
                open + 1,
                Seq::empty(),
                old(sink)@.skip(from as int),
            ),
            match res.0 {
                Some(args) => Some(exprs_view(args@)),
                None => None,
            },
            res.1,
            from,
            final(sink)@,
        ),
    decreases tokens.len() - open, 0nat,
{
    let ghost s0 = sink@;
    let ghost goal = args_loop(
        tokens@,
        eoi,
        open as int,
        open + 1,
        Seq::empty(),
        s0.skip(from as int),
    );
    let mut args: Vec<Spanned<ParserExpr>> = Vec::new();
    let mut cur = open + 1;
    proof {
        lemma_continues_self(s0);
        assert(exprs_view(args@) =~= Seq::empty());
    }
    loop
        invariant
            ordered(tokens@, eoi),
            open < cur <= tokens.len(),
            from <= s0.len(),
            continues(sink@, s0),
            s0 == old(sink)@,
            exprs_spanned(args@, range_span(tokens@, eoi, open as int, cur as int)),
            goal == args_loop(
                tokens@,
                eoi,
                open as int,
                open + 1,
                Seq::empty(),
                old(sink)@.skip(from as int),
            ),
            goal == args_loop(
                tokens@,
                eoi,
                open as int,
                cur as int,
                exprs_view(args@),
                sink@.skip(from as int),
            ),
        decreases tokens.len() - cur,
    {
        if at_punct(tokens, cur, Punctuation::RParen) {
            let end = cur + 1;
            proof {
                lemma_range_within(tokens@, eoi, open as int, end as int, open as int, cur as int);
                lemma_exprs_widen(
                    args@,
                    range_span(tokens@, eoi, open as int, cur as int),
                    range_span(tokens@, eoi, open as int, end as int),
                );
            }
            return (Some(args), end);
        }
        let ghost s1 = sink@;
        let (arg, at1) = parse_expr(tokens, eoi, cur, from, sink);
        proof {
            lemma_continues(s0, s1, sink@);
        }
        match arg {
            Some(e) => {
                let ghost before = args@;
                let next = if at_punct(tokens, at1, Punctuation::Comma) {
                    at1 + 1
                } else if at_punct(tokens, at1, Punctuation::RParen) {
                    at1
                } else {
                    let ghost s2 = sink@;
                    unclosed(tokens, eoi, at1, tokens[open].1, "(", from, sink);
                    proof {
                        lemma_continues(s0, s2, sink@);
                    }
                    return (None, at1);
                };
                args.push(e);
                proof {
                    lemma_range_within(tokens@, eoi, open as int, next as int, open as int, cur as int);
                    lemma_range_within(tokens@, eoi, open as int, next as int, cur as int, at1 as int);
                    lemma_exprs_widen(
                        before,
                        range_span(tokens@, eoi, open as int, cur as int),
                        range_span(tokens@, eoi, open as int, next as int),
                    );
                    assert(args@.drop_last() =~= before);
                    lemma_exprs_view_push(before, e);
                }
                cur = next;
            },
            None => {
                return (None, at1);
            },
        }
    }
}

/// Parses a call: an atom, then any number of argument lists, each with
/// maybe a list of types in angle brackets before it.
pub fn parse_call(tokens: &Tokens, eoi: Span, pos: usize, from: usize, sink: &mut Diagnostics) -> (res:
    (Option<Spanned<ParserExpr>>, usize))
    requires
        ordered(tokens@, eoi),
        pos <= tokens.len(),
        from <= old(sink)@.len(),
    ensures
        continues(final(sink)@, old(sink)@),
        expr_at(res.0, tokens@, eoi, pos as int, res.1 as int),
        parsed(
            call_step(tokens@, eoi, pos as int, old(sink)@.skip(from as int)),
            expr_found(res.0),
            res.1,
            from,
            final(sink)@,
        ),
    decreases tokens.len() - pos, 2nat,
{
    let ghost s0 = sink@;
    let ghost goal = call_step(tokens@, eoi, pos as int, s0.skip(from as int));
    let (atom, at0) = parse_atom(tokens, eoi, pos, from, sink);
    let mut lhs = match atom {
        Some(e) => e,
        None => {
            return (None, at0);
        },
    };
    let mut cur = at0;
    loop
        invariant
            ordered(tokens@, eoi),
            pos < cur <= tokens.len(),
            from <= s0.len(),
            continues(sink@, s0),
            s0 == old(sink)@,
            placed(lhs.span, range_span(tokens@, eoi, pos as int, cur as int)),
            expr_spanned(lhs),
            goal == call_step(tokens@, eoi, pos as int, old(sink)@.skip(from as int)),
            goal == call_loop(
                tokens@,
                eoi,
                pos as int,
                cur as int,
                sexpr_view(lhs),
                sink@.skip(from as int),
            ),
        decreases tokens.len() - cur,
    {
        let ghost s1 = sink@;
        let mut generics: Option<Vec<Spanned<Type>>> = None;
        let mut open = cur;
        if at_op(tokens, cur, Operator::Lt) {
            let (types, at1) = parse_type_list(tokens, eoi, cur, from, sink);
            proof {
                lemma_continues(s0, s1, sink@);
            }
            match types {
                Some(t) => {
                    generics = Some(t);
                    open = at1;
                },
                None => {
                    return (None, at1);
                },
            }
        }
        let ghost s2 = sink@;
        let ghost types_view = if generics is Some {
            Some(spanned_types_view(generics->0@))
        } else {
            None
        };
        assert(goal == call_args(
            tokens@,
            eoi,
            pos as int,
            cur as int,
            open as int,
            sexpr_view(lhs),
            types_view,
            s2.skip(from as int),
        ));
        if !at_punct(tokens, open, Punctuation::LParen) {
            if open == cur {
                return (Some(lhs), cur);
            }
            unexpected(tokens, eoi, open, one("'('"), from, sink);
            proof {
                lemma_continues(s0, s2, sink@);
            }
            return (None, open);
        }
        let (args, end) = parse_args(tokens, eoi, open, from, sink);
        proof {
            lemma_continues(s0, s2, sink@);
        }
        match args {
            Some(a) => {
                let span = span_between(tokens, eoi, pos, end);
                proof {
                    lemma_range_within(tokens@, eoi, pos as int, end as int, pos as int, cur as int);
                    lemma_range_within(tokens@, eoi, pos as int, end as int, cur as int, open as int);
                    lemma_range_within(tokens@, eoi, pos as int, end as int, open as int, end as int);
                    lemma_range_within(tokens@, eoi, pos as int, end as int, pos as int, end as int);
                    lemma_exprs_widen(
                        a@,
                        range_span(tokens@, eoi, open as int, end as int),
                        span,
                    );
                    if generics is Some {
                        lemma_stypes_widen(
                            generics->0@,
                            range_span(tokens@, eoi, cur as int, open as int),
                            span,
                        );
                    }
                }
                lhs = Spanned {
                    span,
                    value: Expr::Call { callee: Box::new(lhs), generics, args: a },
                };
                cur = end;
            },
            None => {
                return (None, end);
            },
        }
    }
}

/// Parses a negation: any number of minus signs before a call.
pub fn parse_unary(tokens: &Tokens, eoi: Span, pos: usize, from: usize, sink: &mut Diagnostics) -> (res:
    (Option<Spanned<ParserExpr>>, usize))
    requires
        ordered(tokens@, eoi),
        pos <= tokens.len(),
        from <= old(sink)@.len(),
    ensures
        continues(final(sink)@, old(sink)@),
        expr_at(res.0, tokens@, eoi, pos as int, res.1 as int),
        parsed(
            unary_step(tokens@, eoi, pos as int, old(sink)@.skip(from as int)),
            expr_found(res.0),
            res.1,
            from,
            final(sink)@,
        ),
    decreases tokens.len() - pos, 3nat,
{
    if at_op(tokens, pos, Operator::Neg) {
        let (inner, end) = parse_unary(tokens, eoi, pos + 1, from, sink);
        match inner {
            Some(v) => {
                let op = Spanned { span: tokens[pos].1, value: Operator::Neg };
                let span = cover_spans(op.span, v.span);
                proof {
                    lemma_token_placed(tokens@, eoi, pos as int, pos + 1, pos as int);
                    lemma_cover(
                        tokens@,
                        eoi,
                        pos as int,
                        pos + 1,
                        pos + 1,
                        end as int,
                        op.span,
                        v.span,
                    );
                }
                (Some(Spanned { span, value: Expr::UnaryOp(op, Box::new(v)) }), end)
            },
            None => (None, end),
        }
    } else {
        parse_call(tokens, eoi, pos, from, sink)
    }
}

/// The operator of a product or quotient at `pos`, if there is one.
fn mul_op(tokens: &Tokens, pos: usize) -> (res: Option<Operator>)
    ensures
        res is Some ==> pos < tokens.len(),
        res == mul_op_at(tokens@, pos as int),
{
    if at_op(tokens, pos, Operator::Star) {
        Some(Operator::Star)
    } else if at_op(tokens, pos, Operator::Div) {
        Some(Operator::Div)
    } else {
        None
    }
}

/// The operator of a sum or difference at `pos`, if there is one.
fn add_op(tokens: &Tokens, pos: usize) -> (res: Option<Operator>)
    ensures
        res is Some ==> pos < tokens.len(),
        res == add_op_at(tokens@, pos as int),
{
    if at_op(tokens, pos, Operator::Plus) {
        Some(Operator::Plus)
    } else if at_op(tokens, pos, Operator::Neg) {
        Some(Operator::Neg)
    } else {
        None
    }
}

/// Parses products and quotients, which group to the left.
pub fn parse_mul(tokens: &Tokens, eoi: Span, pos: usize, from: usize, sink: &mut Diagnostics) -> (res:
    (Option<Spanned<ParserExpr>>, usize))
    requires
        ordered(tokens@, eoi),
        pos <= tokens.len(),
        from <= old(sink)@.len(),
    ensures
        continues(final(sink)@, old(sink)@),
        expr_at(res.0, tokens@, eoi, pos as int, res.1 as int),
        parsed(
            mul_step(tokens@, eoi, pos as int, old(sink)@.skip(from as int)),
            expr_found(res.0),
            res.1,
            from,
            final(sink)@,
        ),
    decreases tokens.len() - pos, 4nat,
{
    let ghost s0 = sink@;
    let ghost goal = mul_step(tokens@, eoi, pos as int, s0.skip(from as int));
    let (first, at0) = parse_unary(tokens, eoi, pos, from, sink);
    let mut lhs = match first {
        Some(e) => e,
        None => {
            return (None, at0);
        },
    };
    let mut cur = at0;
    loop
        invariant
            ordered(tokens@, eoi),
            pos < cur <= tokens.len(),
            from <= s0.len(),
            continues(sink@, s0),
            s0 == old(sink)@,
            placed(lhs.span, range_span(tokens@, eoi, pos as int, cur as int)),
            expr_spanned(lhs),
            goal == mul_step(tokens@, eoi, pos as int, old(sink)@.skip(from as int)),
            goal == mul_loop(tokens@, eoi, cur as int, sexpr_view(lhs), sink@.skip(from as int)),
        decreases tokens.len() - cur,
    {
        let op = match mul_op(tokens, cur) {
            Some(op) => op,
            None => {
                return (Some(lhs), cur);
            },
        };
        let ghost s1 = sink@;
        let (rhs, end) = parse_unary(tokens, eoi, cur + 1, from, sink);
        proof {
            lemma_continues(s0, s1, sink@);
        }
        match rhs {
            Some(r) => {
                let span = cover_spans(lhs.span, r.span);
                proof {
                    lemma_cover(
                        tokens@,
                        eoi,
                        pos as int,
                        cur as int,
                        cur + 1,
                        end as int,
                        lhs.span,
                        r.span,
                    );
                }
                lhs = Spanned {
                    span,
                    value: Expr::BinaryOp(
                        Box::new(lhs),
                        Spanned { span: tokens[cur].1, value: op },
                        Box::new(r),
                    ),
                };
                cur = end;
            },
            None => {
                return (None, end);
            },
        }
    }
}

/// Parses sums and differences, which group to the left.
pub fn parse_add(tokens: &Tokens, eoi: Span, pos: usize, from: usize, sink: &mut Diagnostics) -> (res:
    (Option<Spanned<ParserExpr>>, usize))
    requires
        ordered(tokens@, eoi),
        pos <= tokens.len(),
        from <= old(sink)@.len(),
    ensures
        continues(final(sink)@, old(sink)@),
        expr_at(res.0, tokens@, eoi, pos as int, res.1 as int),
        parsed(
            add_step(tokens@, eoi, pos as int, old(sink)@.skip(from as int)),
            expr_found(res.0),
            res.1,
            from,
            final(sink)@,
        ),
    decreases tokens.len() - pos, 5nat,
{
    let ghost s0 = sink@;
    let ghost goal = add_step(tokens@, eoi, pos as int, s0.skip(from as int));
    let (first, at0) = parse_mul(tokens, eoi, pos, from, sink);
    let mut lhs = match first {
        Some(e) => e,
        None => {
            return (None, at0);
        },
    };
    let mut cur = at0;
    loop
        invariant
            ordered(tokens@, eoi),
            pos < cur <= tokens.len(),
            from <= s0.len(),
            continues(sink@, s0),
            s0 == old(sink)@,
            placed(lhs.span, range_span(tokens@, eoi, pos as int, cur as int)),
            expr_spanned(lhs),
            goal == add_step(tokens@, eoi, pos as int, old(sink)@.skip(from as int)),
            goal == add_loop(tokens@, eoi, cur as int, sexpr_view(lhs), sink@.skip(from as int)),
        decreases tokens.len() - cur,
    {
        let op = match add_op(tokens, cur) {
            Some(op) => op,
            None => {
                return (Some(lhs), cur);
            },
        };
        let ghost s1 = sink@;
        let (rhs, end) = parse_mul(tokens, eoi, cur + 1, from, sink);
        proof {
            lemma_continues(s0, s1, sink@);
        }
        match rhs {
            Some(r) => {
                let span = cover_spans(lhs.span, r.span);
                proof {
                    lemma_cover(
                        tokens@,
                        eoi,
                        pos as int,
                        cur as int,
                        cur + 1,
                        end as int,
                        lhs.span,
                        r.span,
                    );
                }
                lhs = Spanned {
                    span,
                    value: Expr::BinaryOp(
                        Box::new(lhs),
                        Spanned { span: tokens[cur].1, value: op },
                        Box::new(r),
                    ),
                };
                cur = end;
            },
            None => {
                return (None, end);
            },
        }
    }
}

/// Parses an expression.
pub fn parse_expr(tokens: &Tokens, eoi: Span, pos: usize, from: usize, sink: &mut Diagnostics) -> (res:
    (Option<Spanned<ParserExpr>>, usize))
    requires
        ordered(tokens@, eoi),
        pos <= tokens.len(),
        from <= old(sink)@.len(),
    ensures
        continues(final(sink)@, old(sink)@),
        expr_at(res.0, tokens@, eoi, pos as int, res.1 as int),
        parsed(
            expr_step(tokens@, eoi, pos as int, old(sink)@.skip(from as int)),
            expr_found(res.0),
            res.1,
            from,
            final(sink)@,
        ),
    decreases tokens.len() - pos, 6nat,
{
    parse_add(tokens, eoi, pos, from, sink)
}

} // verus!
