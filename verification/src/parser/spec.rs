//! What the parser makes of a list of tokens, as functions of the tokens.
//!
//! Every function here reads the tokens from a position on and says what
//! comes out, where reading stopped, and the reports after it. A report
//! is added once: one that was made before is not made again.
//!
//! Where reading goes on from the position at which a part stopped, it
//! does so only if that position lies ahead; else it fails there. A part
//! that succeeds has taken a token, so reading always goes on.

use crate::common::diagnostics::DiagnosticView;
use crate::common::func::{Attribs, Linkage, SignatureView};
use crate::common::ident::IdentView;
use crate::common::span::{Span, Spanned, SpannedRaw};
use crate::common::typed_ident::TypedIdentView;
use crate::common::types::{builtin_of_name, TypeView};
use crate::common::view::{ExprView, ScopeView, StmtView};
use crate::lexer::{Keyword, Operator, Punctuation, Token};
use crate::parser::cursor::{
    cover, custom_diagnostic, keyword_of, ordered, range_span, token_span, unclosed_diagnostic,
    unexpected_diagnostic, with_report,
};
use crate::parser::view::plain_scope;
use vstd::prelude::*;

verus! {

/// What reading gave: what came out, the position after it, and the
/// reports made so far.
pub ghost struct PStep<T> {
    pub out: T,
    pub pos: int,
    pub reports: Seq<DiagnosticView>,
}

/// The reports with `d` added, unless it is among them.
pub open spec fn added(reports: Seq<DiagnosticView>, d: DiagnosticView) -> Seq<DiagnosticView> {
    with_report(reports, 0, d)
}

/// Whether a call that read from the tokens did what `step` says: it
/// returned `out`, stopped at `end`, and left `s` reported, of which what
/// `from` counts was there before the parse began.
pub open spec fn parsed<T>(
    step: PStep<T>,
    out: T,
    end: usize,
    from: usize,
    s: Seq<DiagnosticView>,
) -> bool {
    &&& step.out == out
    &&& step.pos == end
    &&& s.skip(from as int) =~= step.reports
}

/// Reading that failed at `pos`.
pub open spec fn failed<T>(pos: int, reports: Seq<DiagnosticView>) -> PStep<Option<T>> {
    PStep { out: None, pos, reports }
}

/// Reading that failed at `pos` on a token that the grammar does not allow
/// there; `wanted` names what it allows.
pub open spec fn refused<T>(
    tokens: Seq<SpannedRaw<Token>>,
    eoi: Span,
    pos: int,
    wanted: Seq<char>,
    reports: Seq<DiagnosticView>,
) -> PStep<Option<T>> {
    failed(pos, added(reports, unexpected_diagnostic(token_span(tokens, eoi, pos), seq![wanted])))
}

/// Reading that failed at `pos` because the delimiter opened at `open` is
/// not closed there.
pub open spec fn left_open<T>(
    tokens: Seq<SpannedRaw<Token>>,
    eoi: Span,
    pos: int,
    open: int,
    delimiter: Seq<char>,
    reports: Seq<DiagnosticView>,
) -> PStep<Option<T>> {
    failed(
        pos,
        added(
            reports,
            unclosed_diagnostic(token_span(tokens, eoi, pos), tokens[open].1, delimiter),
        ),
    )
}

/// How many tokens are left from `pos` on.
pub open spec fn left(tokens: Seq<SpannedRaw<Token>>, pos: int) -> nat {
    if pos <= tokens.len() {
        (tokens.len() - pos) as nat
    } else {
        0
    }
}

/// Whether the token at `pos` is the punctuation `p`.
pub open spec fn is_punct(tokens: Seq<SpannedRaw<Token>>, pos: int, p: Punctuation) -> bool {
    0 <= pos < tokens.len() && tokens[pos].0 == Token::Punctuation(p)
}

/// Whether the token at `pos` is the operator `op`.
pub open spec fn is_op(tokens: Seq<SpannedRaw<Token>>, pos: int, op: Operator) -> bool {
    0 <= pos < tokens.len() && tokens[pos].0 == Token::Operator(op)
}

/// Whether the token at `pos` is the assignment sign.
pub open spec fn is_assign(tokens: Seq<SpannedRaw<Token>>, pos: int) -> bool {
    0 <= pos < tokens.len() && tokens[pos].0 is AssignmentOp
}

/// Whether the token at `pos` is a word.
pub open spec fn is_word(tokens: Seq<SpannedRaw<Token>>, pos: int) -> bool {
    0 <= pos < tokens.len() && tokens[pos].0 is Identifier
}

/// Whether the token at `pos` is the keyword `k`.
pub open spec fn is_keyword(tokens: Seq<SpannedRaw<Token>>, pos: int, k: Keyword) -> bool {
    0 <= pos < tokens.len() && tokens[pos].0.keyword_spec() == Some(k)
}

/// The letters of the word at `pos`.
pub open spec fn word_at(tokens: Seq<SpannedRaw<Token>>, pos: int) -> Seq<char> {
    match tokens[pos].0 {
        Token::Identifier(word) => word@,
        _ => Seq::empty(),
    }
}

/// The type that a word names: a built-in type by its name, the type to
/// be inferred by the wildcard, else a type of the program.
pub open spec fn word_type(word: Seq<char>) -> TypeView {
    match builtin_of_name(word) {
        Some(b) => TypeView::BuiltIn(b),
        None => if keyword_of(word) == Some(Keyword::DontCare) {
            TypeView::Inferred
        } else {
            TypeView::User(IdentView::Named(word))
        },
    }
}

/// The name that a word is: the wildcard, or the word.
pub open spec fn word_ident(word: Seq<char>) -> IdentView {
    if keyword_of(word) == Some(Keyword::DontCare) {
        IdentView::Discarded
    } else {
        IdentView::Named(word)
    }
}

/// The word at `pos` as a type.
pub open spec fn type_at(tokens: Seq<SpannedRaw<Token>>, pos: int) -> Spanned<TypeView> {
    Spanned { span: tokens[pos].1, value: word_type(word_at(tokens, pos)) }
}

/// The word at `pos` as a name.
pub open spec fn ident_at(tokens: Seq<SpannedRaw<Token>>, pos: int) -> Spanned<IdentView> {
    Spanned { span: tokens[pos].1, value: word_ident(word_at(tokens, pos)) }
}

/// A type: one word.
pub open spec fn type_step(
    tokens: Seq<SpannedRaw<Token>>,
    eoi: Span,
    pos: int,
    reports: Seq<DiagnosticView>,
) -> PStep<Option<Spanned<TypeView>>> {
    if is_word(tokens, pos) {
        PStep { out: Some(type_at(tokens, pos)), pos: pos + 1, reports }
    } else {
        refused(tokens, eoi, pos, "a type"@, reports)
    }
}

/// A name: one word.
pub open spec fn ident_step(
    tokens: Seq<SpannedRaw<Token>>,
    eoi: Span,
    pos: int,
    reports: Seq<DiagnosticView>,
) -> PStep<Option<Spanned<IdentView>>> {
    if is_word(tokens, pos) {
        PStep { out: Some(ident_at(tokens, pos)), pos: pos + 1, reports }
    } else {
        refused(tokens, eoi, pos, "an identifier"@, reports)
    }
}

/// The reports after a name was read where the wildcard is not allowed.
pub open spec fn binding_name(ident: Spanned<IdentView>, reports: Seq<DiagnosticView>) -> Seq<
    DiagnosticView,
> {
    if ident.value is Discarded {
        added(
            reports,
            custom_diagnostic(ident.span, "discarded ident was used where it is disallowed"@),
        )
    } else {
        reports
    }
}

/// A name that binds: one word; the wildcard is reported.
pub open spec fn ident_nodiscard_step(
    tokens: Seq<SpannedRaw<Token>>,
    eoi: Span,
    pos: int,
    reports: Seq<DiagnosticView>,
) -> PStep<Option<Spanned<IdentView>>> {
    if is_word(tokens, pos) {
        PStep {
            out: Some(ident_at(tokens, pos)),
            pos: pos + 1,
            reports: binding_name(ident_at(tokens, pos), reports),
        }
    } else {
        refused(tokens, eoi, pos, "an identifier"@, reports)
    }
}

/// The typed name of the two words from `at` on.
pub open spec fn typed_at(tokens: Seq<SpannedRaw<Token>>, eoi: Span, at: int) -> Spanned<
    TypedIdentView,
> {
    Spanned {
        span: range_span(tokens, eoi, at, at + 2),
        value: TypedIdentView { ty: type_at(tokens, at), ident: ident_at(tokens, at + 1) },
    }
}

/// A type and a name: two words. Where `binding` says that the name
/// binds, the wildcard is reported.
pub open spec fn ty_ident_step(
    tokens: Seq<SpannedRaw<Token>>,
    eoi: Span,
    pos: int,
    binding: bool,
    reports: Seq<DiagnosticView>,
) -> PStep<Option<Spanned<TypedIdentView>>> {
    if !is_word(tokens, pos) {
        refused(tokens, eoi, pos, "a type"@, reports)
    } else if !is_word(tokens, pos + 1) {
        refused(tokens, eoi, pos + 1, "an identifier"@, reports)
    } else {
        PStep {
            out: Some(typed_at(tokens, eoi, pos)),
            pos: pos + 2,
            reports: if binding {
                binding_name(ident_at(tokens, pos + 1), reports)
            } else {
                reports
            },
        }
    }
}

/// The types of a list in angle brackets opened at `open`, read from
/// `cur` on, after the types `acc`: types with commas between them, maybe
/// one after the last, up to the closing bracket.
pub open spec fn type_list_step(
    tokens: Seq<SpannedRaw<Token>>,
    eoi: Span,
    open: int,
    cur: int,
    acc: Seq<Spanned<TypeView>>,
    reports: Seq<DiagnosticView>,
) -> PStep<Option<Seq<Spanned<TypeView>>>>
    decreases left(tokens, cur),
{
    if is_op(tokens, cur, Operator::Gt) {
        PStep { out: Some(acc), pos: cur + 1, reports }
    } else if !is_word(tokens, cur) {
        refused(tokens, eoi, cur, "a type"@, reports)
    } else if is_punct(tokens, cur + 1, Punctuation::Comma) {
        type_list_step(tokens, eoi, open, cur + 2, acc.push(type_at(tokens, cur)), reports)
    } else if is_op(tokens, cur + 1, Operator::Gt) {
        type_list_step(tokens, eoi, open, cur + 1, acc.push(type_at(tokens, cur)), reports)
    } else {
        left_open(tokens, eoi, cur + 1, open, "<"@, reports)
    }
}

/// The names of a list in angle brackets opened at `open`, read from
/// `cur` on, after the names `acc`.
pub open spec fn names_step(
    tokens: Seq<SpannedRaw<Token>>,
    eoi: Span,
    open: int,
    cur: int,
    acc: Seq<Spanned<IdentView>>,
    reports: Seq<DiagnosticView>,
) -> PStep<Option<Spanned<Seq<Spanned<IdentView>>>>>
    decreases left(tokens, cur),
{
    if is_op(tokens, cur, Operator::Gt) {
        PStep {
            out: Some(Spanned { span: range_span(tokens, eoi, open, cur + 1), value: acc }),
            pos: cur + 1,
            reports,
        }
    } else if !is_word(tokens, cur) {
        refused(tokens, eoi, cur, "an identifier"@, reports)
    } else if is_punct(tokens, cur + 1, Punctuation::Comma) {
        names_step(tokens, eoi, open, cur + 2, acc.push(ident_at(tokens, cur)), reports)
    } else if is_op(tokens, cur + 1, Operator::Gt) {
        names_step(tokens, eoi, open, cur + 1, acc.push(ident_at(tokens, cur)), reports)
    } else {
        left_open(tokens, eoi, cur + 1, open, "<"@, reports)
    }
}

/// The generic parameters of a function at `pos`: names in angle
/// brackets, or nothing.
pub open spec fn generics_step(
    tokens: Seq<SpannedRaw<Token>>,
    eoi: Span,
    pos: int,
    reports: Seq<DiagnosticView>,
) -> PStep<Option<Spanned<Seq<Spanned<IdentView>>>>> {
    if is_op(tokens, pos, Operator::Lt) {
        names_step(tokens, eoi, pos, pos + 1, Seq::empty(), reports)
    } else {
        PStep {
            out: Some(Spanned { span: range_span(tokens, eoi, pos, pos), value: Seq::empty() }),
            pos,
            reports,
        }
    }
}

/// The argument of a function whose type is the word at `cur`: with the
/// name after it, if a word follows, else with the wildcard.
pub open spec fn param_at(tokens: Seq<SpannedRaw<Token>>, eoi: Span, cur: int) -> Spanned<
    TypedIdentView,
> {
    if is_word(tokens, cur + 1) {
        Spanned {
            span: range_span(tokens, eoi, cur, cur + 2),
            value: TypedIdentView { ty: type_at(tokens, cur), ident: ident_at(tokens, cur + 1) },
        }
    } else {
        Spanned {
            span: tokens[cur].1,
            value: TypedIdentView {
                ty: type_at(tokens, cur),
                ident: Spanned { span: tokens[cur].1, value: IdentView::Discarded },
            },
        }
    }
}

/// Where the argument whose type is the word at `cur` ends.
pub open spec fn param_end(tokens: Seq<SpannedRaw<Token>>, cur: int) -> int {
    if is_word(tokens, cur + 1) {
        cur + 2
    } else {
        cur + 1
    }
}

/// The arguments of a function in the parentheses opened at `open`, read
/// from `cur` on, after the arguments `acc`.
pub open spec fn params_loop(
    tokens: Seq<SpannedRaw<Token>>,
    eoi: Span,
    open: int,
    cur: int,
    acc: Seq<Spanned<TypedIdentView>>,
    reports: Seq<DiagnosticView>,
) -> PStep<Option<Spanned<Seq<Spanned<TypedIdentView>>>>>
    decreases left(tokens, cur),
{
    let end = param_end(tokens, cur);
    if is_punct(tokens, cur, Punctuation::RParen) {
        PStep {
            out: Some(Spanned { span: range_span(tokens, eoi, open, cur + 1), value: acc }),
            pos: cur + 1,
            reports,
        }
    } else if !is_word(tokens, cur) {
        refused(tokens, eoi, cur, "a type"@, reports)
    } else if is_punct(tokens, end, Punctuation::Comma) {
        params_loop(tokens, eoi, open, end + 1, acc.push(param_at(tokens, eoi, cur)), reports)
    } else if is_punct(tokens, end, Punctuation::RParen) {
        params_loop(tokens, eoi, open, end, acc.push(param_at(tokens, eoi, cur)), reports)
    } else {
        left_open(tokens, eoi, end, open, "("@, reports)
    }
}

/// The arguments of a function at `pos`: in parentheses, each a type with
/// or without a name.
pub open spec fn params_step(
    tokens: Seq<SpannedRaw<Token>>,
    eoi: Span,
    pos: int,
    reports: Seq<DiagnosticView>,
) -> PStep<Option<Spanned<Seq<Spanned<TypedIdentView>>>>> {
    if is_punct(tokens, pos, Punctuation::LParen) {
        params_loop(tokens, eoi, pos, pos + 1, Seq::empty(), reports)
    } else {
        refused(tokens, eoi, pos, "'('"@, reports)
    }
}

/// What the attribute words from `cur` on add to `attribs`: where they
/// end, the attributes, and whether one came twice, `twice` included.
pub open spec fn attribs_loop(
    tokens: Seq<SpannedRaw<Token>>,
    cur: int,
    attribs: Attribs,
    twice: bool,
) -> (int, Attribs, bool)
    decreases left(tokens, cur),
{
    if is_keyword(tokens, cur, Keyword::Pure) {
        attribs_loop(
            tokens,
            cur + 1,
            Attribs { is_pure: true, is_unsafe: attribs.is_unsafe },
            twice || attribs.is_pure,
        )
    } else if is_keyword(tokens, cur, Keyword::Unsafe) {
        attribs_loop(
            tokens,
            cur + 1,
            Attribs { is_pure: attribs.is_pure, is_unsafe: true },
            twice || attribs.is_unsafe,
        )
    } else {
        (cur, attribs, twice)
    }
}

/// The attributes of a function at `pos`: any number of `pure` and
/// `unsafe`; one that comes twice is reported.
pub open spec fn attribs_step(
    tokens: Seq<SpannedRaw<Token>>,
    eoi: Span,
    pos: int,
    reports: Seq<DiagnosticView>,
) -> PStep<Spanned<Attribs>> {
    let found = attribs_loop(tokens, pos, Attribs { is_pure: false, is_unsafe: false }, false);
    let span = range_span(tokens, eoi, pos, found.0);
    PStep {
        out: Spanned { span, value: found.1 },
        pos: found.0,
        reports: if found.2 {
            added(reports, custom_diagnostic(span, "cannot apply attribute twice"@))
        } else {
            reports
        },
    }
}

/// Where the semicolons that begin at `pos` end.
pub open spec fn semis_end(tokens: Seq<SpannedRaw<Token>>, pos: int) -> int
    decreases left(tokens, pos),
{
    if is_punct(tokens, pos, Punctuation::Semicolon) {
        semis_end(tokens, pos + 1)
    } else {
        pos
    }
}

/// The statement `value`, which began at `pos` and is written out up to
/// `after`: it ends with the semicolons there, of which there is at least
/// one.
pub open spec fn ended(
    tokens: Seq<SpannedRaw<Token>>,
    eoi: Span,
    pos: int,
    after: int,
    value: StmtView,
    reports: Seq<DiagnosticView>,
) -> PStep<Option<Spanned<StmtView>>> {
    let end = semis_end(tokens, after);
    if end == after {
        refused(tokens, eoi, after, "';'"@, reports)
    } else {
        PStep {
            out: Some(Spanned { span: range_span(tokens, eoi, pos, end), value }),
            pos: end,
            reports,
        }
    }
}

/// The declaration of a name with the type left to inference.
pub open spec fn untyped(ident: Spanned<IdentView>) -> Spanned<TypedIdentView> {
    Spanned {
        span: ident.span,
        value: TypedIdentView { ty: Spanned { span: ident.span, value: TypeView::Inferred }, ident },
    }
}

/// The operator of a product or quotient at `pos`, if there is one.
pub open spec fn mul_op_at(tokens: Seq<SpannedRaw<Token>>, pos: int) -> Option<Operator> {
    if is_op(tokens, pos, Operator::Star) {
        Some(Operator::Star)
    } else if is_op(tokens, pos, Operator::Div) {
        Some(Operator::Div)
    } else {
        None
    }
}

/// The operator of a sum or difference at `pos`, if there is one.
pub open spec fn add_op_at(tokens: Seq<SpannedRaw<Token>>, pos: int) -> Option<Operator> {
    if is_op(tokens, pos, Operator::Plus) {
        Some(Operator::Plus)
    } else if is_op(tokens, pos, Operator::Neg) {
        Some(Operator::Neg)
    } else {
        None
    }
}

/// The operator of a compound assignment at `pos`, if there is one.
pub open spec fn compound_op_at(tokens: Seq<SpannedRaw<Token>>, pos: int) -> Option<Operator> {
    if is_op(tokens, pos, Operator::Neg) {
        Some(Operator::Neg)
    } else if is_op(tokens, pos, Operator::Star) {
        Some(Operator::Star)
    } else if is_op(tokens, pos, Operator::Plus) {
        Some(Operator::Plus)
    } else if is_op(tokens, pos, Operator::Div) {
        Some(Operator::Div)
    } else {
        None
    }
}

/// The operation on two expressions, from the beginning of the first to
/// the end of the second.
pub open spec fn binary(lhs: Spanned<ExprView>, op: Spanned<Operator>, rhs: Spanned<ExprView>)
    -> Spanned<ExprView> {
    Spanned {
        span: cover(lhs.span, rhs.span),
        value: ExprView::BinaryOp(Box::new(lhs), op, Box::new(rhs)),
    }
}

/// The operator at `pos` with its span.
pub open spec fn op_at(tokens: Seq<SpannedRaw<Token>>, pos: int, op: Operator) -> Spanned<
    Operator,
> {
    Spanned { span: tokens[pos].1, value: op }
}

/// A scope in braces, from its opening brace at `pos` to its closing
/// brace.
pub open spec fn braced_step(
    tokens: Seq<SpannedRaw<Token>>,
    eoi: Span,
    pos: int,
    reports: Seq<DiagnosticView>,
) -> PStep<Option<Spanned<ScopeView>>>
    decreases left(tokens, pos), 0nat,
{
    if !is_punct(tokens, pos, Punctuation::LBrace) {
        failed(pos, reports)
    } else {
        let s = stmts_loop(tokens, eoi, pos + 1, true, Seq::empty(), reports);
        if is_punct(tokens, s.pos, Punctuation::RBrace) {
            PStep {
                out: Some(
                    Spanned {
                        span: range_span(tokens, eoi, pos, s.pos + 1),
                        value: plain_scope(s.out),
                    },
                ),
                pos: s.pos + 1,
                reports: s.reports,
            }
        } else {
            left_open(tokens, eoi, s.pos, pos, "{"@, s.reports)
        }
    }
}

/// An atom: an expression in parentheses, a number literal, a name, or a
/// scope in braces.
pub open spec fn atom_step(
    tokens: Seq<SpannedRaw<Token>>,
    eoi: Span,
    pos: int,
    reports: Seq<DiagnosticView>,
) -> PStep<Option<Spanned<ExprView>>>
    decreases left(tokens, pos), 1nat,
{
    if !(0 <= pos < tokens.len()) {
        refused(tokens, eoi, pos, "an expression"@, reports)
    } else {
        match tokens[pos].0 {
            Token::NumberLiteral(n) => PStep {
                out: Some(Spanned { span: tokens[pos].1, value: ExprView::NumberLiteral(n@) }),
                pos: pos + 1,
                reports,
            },
            Token::Identifier(word) => PStep {
                out: Some(
                    Spanned { span: tokens[pos].1, value: ExprView::Identifier(word_ident(word@)) },
                ),
                pos: pos + 1,
                reports,
            },
            Token::Punctuation(Punctuation::LParen) => {
                let e = expr_step(tokens, eoi, pos + 1, reports);
                if e.out is None {
                    failed(e.pos, e.reports)
                } else if is_punct(tokens, e.pos, Punctuation::RParen) {
                    PStep { out: e.out, pos: e.pos + 1, reports: e.reports }
                } else {
                    left_open(tokens, eoi, e.pos, pos, "("@, e.reports)
                }
            },
            Token::Punctuation(Punctuation::LBrace) => {
                let b = braced_step(tokens, eoi, pos, reports);
                match b.out {
                    Some(s) => PStep {
                        out: Some(Spanned { span: s.span, value: ExprView::Scope(s.value) }),
                        pos: b.pos,
                        reports: b.reports,
                    },
                    None => failed(b.pos, b.reports),
                }
            },
            _ => refused(tokens, eoi, pos, "an expression"@, reports),
        }
    }
}

/// The arguments of a call in the parentheses opened at `open`, read from
/// `cur` on, after the arguments `acc`: expressions with commas between
/// them, maybe one after the last, up to the closing parenthesis.
pub open spec fn args_loop(
    tokens: Seq<SpannedRaw<Token>>,
    eoi: Span,
    open: int,
    cur: int,
    acc: Seq<Spanned<ExprView>>,
    reports: Seq<DiagnosticView>,
) -> PStep<Option<Seq<Spanned<ExprView>>>>
    decreases left(tokens, cur), 7nat,
{
    if is_punct(tokens, cur, Punctuation::RParen) {
        PStep { out: Some(acc), pos: cur + 1, reports }
    } else {
        let e = expr_step(tokens, eoi, cur, reports);
        match e.out {
            None => failed(e.pos, e.reports),
            Some(arg) => if e.pos <= cur {
                failed(e.pos, e.reports)
            } else if is_punct(tokens, e.pos, Punctuation::Comma) {
                args_loop(tokens, eoi, open, e.pos + 1, acc.push(arg), e.reports)
            } else if is_punct(tokens, e.pos, Punctuation::RParen) {
                args_loop(tokens, eoi, open, e.pos, acc.push(arg), e.reports)
            } else {
                left_open(tokens, eoi, e.pos, open, "("@, e.reports)
            },
        }
    }
}

/// The calls of `callee`, which began at `pos`, from `cur` on, where the
/// parentheses of the first are to open at `open`, after the types
/// `generics` if there are any.
pub open spec fn call_args(
    tokens: Seq<SpannedRaw<Token>>,
    eoi: Span,
    pos: int,
    cur: int,
    open: int,
    callee: Spanned<ExprView>,
    generics: Option<Seq<Spanned<TypeView>>>,
    reports: Seq<DiagnosticView>,
) -> PStep<Option<Spanned<ExprView>>>
    decreases left(tokens, cur), 0nat,
{
    if !is_punct(tokens, open, Punctuation::LParen) {
        if open == cur {
            PStep { out: Some(callee), pos: cur, reports }
        } else {
            refused(tokens, eoi, open, "'('"@, reports)
        }
    } else if open < cur {
        failed(open, reports)
    } else {
        let a = args_loop(tokens, eoi, open, open + 1, Seq::empty(), reports);
        match a.out {
            None => failed(a.pos, a.reports),
            Some(args) => if a.pos <= cur {
                failed(a.pos, a.reports)
            } else {
                call_loop(
                    tokens,
                    eoi,
                    pos,
                    a.pos,
                    Spanned {
                        span: range_span(tokens, eoi, pos, a.pos),
                        value: ExprView::Call { callee: Box::new(callee), generics, args },
                    },
                    a.reports,
                )
            },
        }
    }
}

/// The calls of `callee`, which began at `pos`, from `cur` on: any number
/// of argument lists, each with maybe a list of types in angle brackets
/// before it.
pub open spec fn call_loop(
    tokens: Seq<SpannedRaw<Token>>,
    eoi: Span,
    pos: int,
    cur: int,
    callee: Spanned<ExprView>,
    reports: Seq<DiagnosticView>,
) -> PStep<Option<Spanned<ExprView>>>
    decreases left(tokens, cur), 1nat,
{
    if is_op(tokens, cur, Operator::Lt) {
        let g = type_list_step(tokens, eoi, cur, cur + 1, Seq::empty(), reports);
        match g.out {
            Some(types) => call_args(tokens, eoi, pos, cur, g.pos, callee, Some(types), g.reports),
            None => failed(g.pos, g.reports),
        }
    } else {
        call_args(tokens, eoi, pos, cur, cur, callee, None, reports)
    }
}

/// A call: an atom, then its calls.
pub open spec fn call_step(
    tokens: Seq<SpannedRaw<Token>>,
    eoi: Span,
    pos: int,
    reports: Seq<DiagnosticView>,
) -> PStep<Option<Spanned<ExprView>>>
    decreases left(tokens, pos), 2nat,
{
    let a = atom_step(tokens, eoi, pos, reports);
    match a.out {
        None => failed(a.pos, a.reports),
        Some(e) => if a.pos <= pos {
            failed(a.pos, a.reports)
        } else {
            call_loop(tokens, eoi, pos, a.pos, e, a.reports)
        },
    }
}

/// A negation: any number of minus signs before a call.
pub open spec fn unary_step(
    tokens: Seq<SpannedRaw<Token>>,
    eoi: Span,
    pos: int,
    reports: Seq<DiagnosticView>,
) -> PStep<Option<Spanned<ExprView>>>
    decreases left(tokens, pos), 3nat,
{
    if is_op(tokens, pos, Operator::Neg) {
        let v = unary_step(tokens, eoi, pos + 1, reports);
        match v.out {
            None => failed(v.pos, v.reports),
            Some(x) => PStep {
                out: Some(
                    Spanned {
                        span: cover(tokens[pos].1, x.span),
                        value: ExprView::UnaryOp(op_at(tokens, pos, Operator::Neg), Box::new(x)),
                    },
                ),
                pos: v.pos,
                reports: v.reports,
            },
        }
    } else {
        call_step(tokens, eoi, pos, reports)
    }
}

/// The products and quotients of `lhs` from `cur` on, which group to the
/// left.
pub open spec fn mul_loop(
    tokens: Seq<SpannedRaw<Token>>,
    eoi: Span,
    cur: int,
    lhs: Spanned<ExprView>,
    reports: Seq<DiagnosticView>,
) -> PStep<Option<Spanned<ExprView>>>
    decreases left(tokens, cur), 0nat,
{
    match mul_op_at(tokens, cur) {
        None => PStep { out: Some(lhs), pos: cur, reports },
        Some(op) => {
            let r = unary_step(tokens, eoi, cur + 1, reports);
            match r.out {
                None => failed(r.pos, r.reports),
                Some(rhs) => if r.pos <= cur {
                    failed(r.pos, r.reports)
                } else {
                    mul_loop(tokens, eoi, r.pos, binary(lhs, op_at(tokens, cur, op), rhs), r.reports)
                },
            }
        },
    }
}

/// Products and quotients.
pub open spec fn mul_step(
    tokens: Seq<SpannedRaw<Token>>,
    eoi: Span,
    pos: int,
    reports: Seq<DiagnosticView>,
) -> PStep<Option<Spanned<ExprView>>>
    decreases left(tokens, pos), 4nat,
{
    let f = unary_step(tokens, eoi, pos, reports);
    match f.out {
        None => failed(f.pos, f.reports),
        Some(e) => if f.pos <= pos {
            failed(f.pos, f.reports)
        } else {
            mul_loop(tokens, eoi, f.pos, e, f.reports)
        },
    }
}

/// The sums and differences of `lhs` from `cur` on, which group to the
/// left.
pub open spec fn add_loop(
    tokens: Seq<SpannedRaw<Token>>,
    eoi: Span,
    cur: int,
    lhs: Spanned<ExprView>,
    reports: Seq<DiagnosticView>,
) -> PStep<Option<Spanned<ExprView>>>
    decreases left(tokens, cur), 0nat,
{
    match add_op_at(tokens, cur) {
        None => PStep { out: Some(lhs), pos: cur, reports },
        Some(op) => {
            let r = mul_step(tokens, eoi, cur + 1, reports);
            match r.out {
                None => failed(r.pos, r.reports),
                Some(rhs) => if r.pos <= cur {
                    failed(r.pos, r.reports)
                } else {
                    add_loop(tokens, eoi, r.pos, binary(lhs, op_at(tokens, cur, op), rhs), r.reports)
                },
            }
        },
    }
}

/// Sums and differences.
pub open spec fn add_step(
    tokens: Seq<SpannedRaw<Token>>,
    eoi: Span,
    pos: int,
    reports: Seq<DiagnosticView>,
) -> PStep<Option<Spanned<ExprView>>>
    decreases left(tokens, pos), 5nat,
{
    let f = mul_step(tokens, eoi, pos, reports);
    match f.out {
        None => failed(f.pos, f.reports),
        Some(e) => if f.pos <= pos {
            failed(f.pos, f.reports)
        } else {
            add_loop(tokens, eoi, f.pos, e, f.reports)
        },
    }
}

/// An expression.
pub open spec fn expr_step(
    tokens: Seq<SpannedRaw<Token>>,
    eoi: Span,
    pos: int,
    reports: Seq<DiagnosticView>,
) -> PStep<Option<Spanned<ExprView>>>
    decreases left(tokens, pos), 6nat,
{
    add_step(tokens, eoi, pos, reports)
}

/// The rest of a declaration that began at `pos` and whose typed name
/// ends at `cur`: maybe a value after an assignment sign, which
/// `need_value` asks for, then the semicolons.
pub open spec fn finish_create_step(
    tokens: Seq<SpannedRaw<Token>>,
    eoi: Span,
    pos: int,
    cur: int,
    ty_id: Spanned<TypedIdentView>,
    mutable: bool,
    need_value: bool,
    reports: Seq<DiagnosticView>,
) -> PStep<Option<Spanned<StmtView>>>
    decreases left(tokens, cur), 7nat,
{
    if is_assign(tokens, cur) {
        let e = expr_step(tokens, eoi, cur + 1, reports);
        match e.out {
            None => failed(e.pos, e.reports),
            Some(v) => ended(
                tokens,
                eoi,
                pos,
                e.pos,
                StmtView::Create { ty_id, mutable, value: Some(v) },
                e.reports,
            ),
        }
    } else if need_value {
        refused(tokens, eoi, cur, "'='"@, reports)
    } else {
        ended(tokens, eoi, pos, cur, StmtView::Create { ty_id, mutable, value: None }, reports)
    }
}

/// A declaration after `let` or `mut` at `pos`: a name, which must get a
/// value, or a type and a name.
pub open spec fn binding_step(
    tokens: Seq<SpannedRaw<Token>>,
    eoi: Span,
    pos: int,
    mutable: bool,
    reports: Seq<DiagnosticView>,
) -> PStep<Option<Spanned<StmtView>>>
    decreases left(tokens, pos), 8nat,
{
    if is_word(tokens, pos + 1) && is_word(tokens, pos + 2) {
        finish_create_step(
            tokens,
            eoi,
            pos,
            pos + 3,
            typed_at(tokens, eoi, pos + 1),
            mutable,
            false,
            reports,
        )
    } else if is_word(tokens, pos + 1) {
        finish_create_step(
            tokens,
            eoi,
            pos,
            pos + 2,
            untyped(ident_at(tokens, pos + 1)),
            mutable,
            true,
            reports,
        )
    } else {
        refused(tokens, eoi, pos + 1, "an identifier"@, reports)
    }
}

/// An assignment to the word at `pos`. With an operator before the
/// assignment sign, the value is the operation on the target and what is
/// written.
pub open spec fn assign_step(
    tokens: Seq<SpannedRaw<Token>>,
    eoi: Span,
    pos: int,
    op: Option<Operator>,
    reports: Seq<DiagnosticView>,
) -> PStep<Option<Spanned<StmtView>>>
    decreases left(tokens, pos), 8nat,
{
    let id = ident_at(tokens, pos);
    let e = expr_step(
        tokens,
        eoi,
        if op is Some {
            pos + 3
        } else {
            pos + 2
        },
        binding_name(id, reports),
    );
    match e.out {
        None => failed(e.pos, e.reports),
        Some(rhs) => ended(
            tokens,
            eoi,
            pos,
            e.pos,
            StmtView::Assign {
                id,
                value: match op {
                    Some(o) => binary(
                        Spanned { span: id.span, value: ExprView::Identifier(id.value) },
                        op_at(tokens, pos + 1, o),
                        rhs,
                    ),
                    None => rhs,
                },
            },
            e.reports,
        ),
    }
}

/// A return or yield, whose keyword stands at `pos`.
pub open spec fn return_step(
    tokens: Seq<SpannedRaw<Token>>,
    eoi: Span,
    pos: int,
    is_yield: bool,
    reports: Seq<DiagnosticView>,
) -> PStep<Option<Spanned<StmtView>>>
    decreases left(tokens, pos), 8nat,
{
    let e = expr_step(tokens, eoi, pos + 1, reports);
    match e.out {
        None => failed(e.pos, e.reports),
        Some(value) => ended(
            tokens,
            eoi,
            pos,
            e.pos,
            StmtView::Return { value, is_yield },
            e.reports,
        ),
    }
}

/// An expression that stands alone: it is declared as the value of the
/// wildcard.
pub open spec fn expr_stmt_step(
    tokens: Seq<SpannedRaw<Token>>,
    eoi: Span,
    pos: int,
    reports: Seq<DiagnosticView>,
) -> PStep<Option<Spanned<StmtView>>>
    decreases left(tokens, pos), 8nat,
{
    let e = expr_step(tokens, eoi, pos, reports);
    match e.out {
        None => failed(e.pos, e.reports),
        Some(v) => ended(
            tokens,
            eoi,
            pos,
            e.pos,
            StmtView::Create {
                ty_id: untyped(Spanned { span: v.span, value: IdentView::Discarded }),
                mutable: false,
                value: Some(v),
            },
            e.reports,
        ),
    }
}

/// The body of a function at `pos`: a scope in braces, or an arrow with
/// the expression to return and a semicolon, or nothing. The outer option
/// says whether reading went well, the inner one whether there is a body.
pub open spec fn body_step(
    tokens: Seq<SpannedRaw<Token>>,
    eoi: Span,
    pos: int,
    reports: Seq<DiagnosticView>,
) -> PStep<Option<Option<Spanned<ScopeView>>>>
    decreases left(tokens, pos), 7nat,
{
    if is_punct(tokens, pos, Punctuation::LBrace) {
        let b = braced_step(tokens, eoi, pos, reports);
        match b.out {
            Some(s) => PStep { out: Some(Some(s)), pos: b.pos, reports: b.reports },
            None => failed(b.pos, b.reports),
        }
    } else if is_punct(tokens, pos, Punctuation::FatArrow) {
        let e = expr_step(tokens, eoi, pos + 1, reports);
        match e.out {
            None => failed(e.pos, e.reports),
            Some(value) => if is_punct(tokens, e.pos, Punctuation::Semicolon) {
                let span = range_span(tokens, eoi, pos, e.pos + 1);
                PStep {
                    out: Some(
                        Some(
                            Spanned {
                                span,
                                value: plain_scope(
                                    seq![
                                        Spanned {
                                            span,
                                            value: StmtView::Return { value, is_yield: false },
                                        },
                                    ],
                                ),
                            },
                        ),
                    ),
                    pos: e.pos + 1,
                    reports: e.reports,
                }
            } else {
                refused(tokens, eoi, e.pos, "';'"@, e.reports)
            },
        }
    } else {
        PStep { out: Some(None), pos, reports }
    }
}

/// What of a function is read before its return type and body.
pub ghost struct FuncHead {
    pub id: Spanned<IdentView>,
    pub linkage: Spanned<Linkage>,
    pub leading: Spanned<TypeView>,
    pub by_func: bool,
    pub generics: Spanned<Seq<Spanned<IdentView>>>,
    pub args: Spanned<Seq<Spanned<TypedIdentView>>>,
    pub attribs: Spanned<Attribs>,
}

/// The attributes as the function holds them: those found, or, where none
/// is written, none at the end of the token before `pos`.
pub open spec fn placed_attribs(
    tokens: Seq<SpannedRaw<Token>>,
    eoi: Span,
    pos: int,
    found: PStep<Spanned<Attribs>>,
) -> Spanned<Attribs> {
    if found.pos == pos {
        Spanned {
            span: Span {
                file_id: eoi.file_id,
                start: tokens[pos - 1].1.end,
                end: tokens[pos - 1].1.end,
            },
            value: found.out.value,
        }
    } else {
        found.out
    }
}

/// The head of a function whose type and name begin at `start`, after
/// the linkage, if one is written: the type or `func`, the name, which
/// may not be the wildcard, maybe generic parameters, the arguments, and
/// the attributes.
pub open spec fn head_step(
    tokens: Seq<SpannedRaw<Token>>,
    eoi: Span,
    pos: int,
    start: int,
    reports: Seq<DiagnosticView>,
) -> PStep<Option<FuncHead>> {
    let n = ty_ident_step(tokens, eoi, start, true, reports);
    match n.out {
        None => failed(n.pos, n.reports),
        Some(named) => {
            let g = generics_step(tokens, eoi, n.pos, n.reports);
            match g.out {
                None => failed(g.pos, g.reports),
                Some(generics) => {
                    let p = params_step(tokens, eoi, g.pos, g.reports);
                    match p.out {
                        None => failed(p.pos, p.reports),
                        Some(args) => {
                            let a = attribs_step(tokens, eoi, p.pos, p.reports);
                            PStep {
                                out: Some(
                                    FuncHead {
                                        id: named.value.ident,
                                        linkage: Spanned {
                                            span: range_span(tokens, eoi, pos, start),
                                            value: if start > pos {
                                                Linkage::External
                                            } else {
                                                Linkage::Default
                                            },
                                        },
                                        leading: named.value.ty,
                                        by_func: is_keyword(tokens, start, Keyword::Function),
                                        generics,
                                        args,
                                        attribs: placed_attribs(tokens, eoi, p.pos, a),
                                    },
                                ),
                                pos: a.pos,
                                reports: a.reports,
                            }
                        },
                    }
                },
            }
        },
    }
}

/// The return type of a function, read at `pos`: the type after an
/// arrow, if there is one.
pub open spec fn arrow_step(
    tokens: Seq<SpannedRaw<Token>>,
    eoi: Span,
    pos: int,
    reports: Seq<DiagnosticView>,
) -> PStep<Option<Option<Spanned<TypeView>>>> {
    if is_op(tokens, pos, Operator::Neg) && is_op(tokens, pos + 1, Operator::Gt) {
        if is_word(tokens, pos + 2) {
            PStep { out: Some(Some(type_at(tokens, pos + 2))), pos: pos + 3, reports }
        } else {
            refused(tokens, eoi, pos + 2, "a type"@, reports)
        }
    } else {
        PStep { out: Some(None), pos, reports }
    }
}

/// The return type of a function: the type after the arrow, if there is
/// one; else the type to be inferred where the function is introduced by
/// `func`, and the introducing type where it is introduced by a type.
pub open spec fn return_type(head: FuncHead, arrow: Option<Spanned<TypeView>>) -> Spanned<
    TypeView,
> {
    match arrow {
        Some(t) => t,
        None => if head.by_func {
            Spanned { span: head.leading.span, value: TypeView::Inferred }
        } else {
            head.leading
        },
    }
}

/// The reports after the return type was read: a type after the arrow is
/// one too many where a type introduces the function.
pub open spec fn return_reports(
    head: FuncHead,
    arrow: Option<Spanned<TypeView>>,
    reports: Seq<DiagnosticView>,
) -> Seq<DiagnosticView> {
    if arrow is Some && !head.by_func {
        added(reports, custom_diagnostic(head.leading.span, "return type given twice"@))
    } else {
        reports
    }
}

/// The function that began at `pos`, with its head and return type read,
/// from its body at `cur` on; semicolons may follow it.
pub open spec fn func_body_step(
    tokens: Seq<SpannedRaw<Token>>,
    eoi: Span,
    pos: int,
    cur: int,
    head: FuncHead,
    arrow: Option<Spanned<TypeView>>,
    reports: Seq<DiagnosticView>,
) -> PStep<Option<Spanned<StmtView>>>
    decreases left(tokens, pos), 8nat,
{
    if cur < pos {
        failed(cur, reports)
    } else {
        let b = body_step(tokens, eoi, cur, return_reports(head, arrow, reports));
        match b.out {
            None => failed(b.pos, b.reports),
            Some(body) => {
                let end = semis_end(tokens, b.pos);
                PStep {
                    out: Some(
                        Spanned {
                            span: range_span(tokens, eoi, pos, end),
                            value: StmtView::Func {
                                id: head.id,
                                signature: SignatureView {
                                    attribs: head.attribs,
                                    linkage: head.linkage,
                                    return_ty: return_type(head, arrow),
                                    args: head.args,
                                    generics: head.generics,
                                },
                                body,
                            },
                        },
                    ),
                    pos: end,
                    reports: b.reports,
                }
            },
        }
    }
}

/// A function. The statement begins at `pos`; the type and the name begin
/// at `start`, after the linkage, if one is written.
pub open spec fn func_step(
    tokens: Seq<SpannedRaw<Token>>,
    eoi: Span,
    pos: int,
    start: int,
    reports: Seq<DiagnosticView>,
) -> PStep<Option<Spanned<StmtView>>>
    decreases left(tokens, pos), 9nat,
{
    let h = head_step(tokens, eoi, pos, start, reports);
    match h.out {
        None => failed(h.pos, h.reports),
        Some(head) => {
            let a = arrow_step(tokens, eoi, h.pos, h.reports);
            match a.out {
                None => failed(a.pos, a.reports),
                Some(arrow) => func_body_step(tokens, eoi, pos, a.pos, head, arrow, a.reports),
            }
        },
    }
}

/// One statement: a return or yield, a declaration, a function, an
/// assignment, or an expression that stands alone.
pub open spec fn stmt_step(
    tokens: Seq<SpannedRaw<Token>>,
    eoi: Span,
    pos: int,
    reports: Seq<DiagnosticView>,
) -> PStep<Option<Spanned<StmtView>>>
    decreases left(tokens, pos), 10nat,
{
    if is_keyword(tokens, pos, Keyword::Return) {
        return_step(tokens, eoi, pos, false, reports)
    } else if is_keyword(tokens, pos, Keyword::Yield) {
        return_step(tokens, eoi, pos, true, reports)
    } else if is_keyword(tokens, pos, Keyword::Let) {
        binding_step(tokens, eoi, pos, false, reports)
    } else if is_keyword(tokens, pos, Keyword::Mut) {
        binding_step(tokens, eoi, pos, true, reports)
    } else if is_keyword(tokens, pos, Keyword::External) {
        if pos + 1 < tokens.len() {
            func_step(tokens, eoi, pos, pos + 1, reports)
        } else {
            refused(tokens, eoi, pos + 1, "a type"@, reports)
        }
    } else if is_word(tokens, pos) && is_word(tokens, pos + 1) {
        if is_punct(tokens, pos + 2, Punctuation::LParen) || is_op(tokens, pos + 2, Operator::Lt) {
            func_step(tokens, eoi, pos, pos, reports)
        } else {
            finish_create_step(
                tokens,
                eoi,
                pos,
                pos + 2,
                typed_at(tokens, eoi, pos),
                false,
                false,
                reports,
            )
        }
    } else if is_word(tokens, pos) && is_assign(tokens, pos + 1) {
        assign_step(tokens, eoi, pos, None, reports)
    } else if is_word(tokens, pos) && compound_op_at(tokens, pos + 1) is Some && is_assign(
        tokens,
        pos + 2,
    ) {
        assign_step(tokens, eoi, pos, compound_op_at(tokens, pos + 1), reports)
    } else {
        expr_stmt_step(tokens, eoi, pos, reports)
    }
}

/// Where reading goes on from `q`, with `depth` braces open since the
/// statement that began at `cur` failed: after the next semicolon outside
/// of braces, or, inside braces, at the brace that closes them.
pub open spec fn recover_loop(
    tokens: Seq<SpannedRaw<Token>>,
    cur: int,
    q: int,
    depth: nat,
    in_braces: bool,
) -> int
    decreases left(tokens, q),
{
    if !(0 <= q < tokens.len()) {
        q
    } else if is_punct(tokens, q, Punctuation::Semicolon) && depth == 0 {
        q + 1
    } else if is_punct(tokens, q, Punctuation::LBrace) {
        recover_loop(tokens, cur, q + 1, depth + 1, in_braces)
    } else if is_punct(tokens, q, Punctuation::RBrace) && depth > 0 {
        recover_loop(tokens, cur, q + 1, (depth - 1) as nat, in_braces)
    } else if is_punct(tokens, q, Punctuation::RBrace) && in_braces && q > cur {
        q
    } else {
        recover_loop(tokens, cur, q + 1, depth, in_braces)
    }
}

/// Where reading goes on after the statement that began at `cur` failed
/// at `stopped`. A closing brace that nothing opened is skipped alone.
pub open spec fn recover_at(
    tokens: Seq<SpannedRaw<Token>>,
    cur: int,
    stopped: int,
    in_braces: bool,
) -> int {
    if !in_braces && stopped == cur && is_punct(tokens, cur, Punctuation::RBrace) {
        cur + 1
    } else {
        recover_loop(tokens, cur, stopped, 0, in_braces)
    }
}

/// The statements from `cur` on, after the statements `acc`, to the end
/// of the tokens or, inside braces, to the brace that closes them. A
/// statement that fails is left out, and reading goes on where
/// [`recover_at`] says.
pub open spec fn stmts_loop(
    tokens: Seq<SpannedRaw<Token>>,
    eoi: Span,
    cur: int,
    in_braces: bool,
    acc: Seq<Spanned<StmtView>>,
    reports: Seq<DiagnosticView>,
) -> PStep<Seq<Spanned<StmtView>>>
    decreases left(tokens, cur), 11nat,
{
    if !(0 <= cur < tokens.len()) || (in_braces && is_punct(tokens, cur, Punctuation::RBrace)) {
        PStep { out: acc, pos: cur, reports }
    } else {
        let s = stmt_step(tokens, eoi, cur, reports);
        let next = match s.out {
            Some(_) => s.pos,
            None => recover_at(tokens, cur, s.pos, in_braces),
        };
        let stmts = match s.out {
            Some(stmt) => acc.push(stmt),
            None => acc,
        };
        if next <= cur {
            PStep { out: stmts, pos: next, reports: s.reports }
        } else {
            stmts_loop(tokens, eoi, next, in_braces, stmts, s.reports)
        }
    }
}

/// The program that the tokens of a source text stand for, with the
/// reports on what does not parse. Tokens whose spans are out of order
/// give an empty program and one report.
pub open spec fn parse_step(tokens: Seq<SpannedRaw<Token>>, eoi: Span) -> PStep<ScopeView> {
    if ordered(tokens, eoi) {
        let s = stmts_loop(tokens, eoi, 0, false, Seq::empty(), Seq::empty());
        PStep { out: plain_scope(s.out), pos: s.pos, reports: s.reports }
    } else {
        PStep {
            out: plain_scope(Seq::empty()),
            pos: 0,
            reports: seq![custom_diagnostic(eoi, "token spans are out of order"@)],
        }
    }
}

} // verus!
