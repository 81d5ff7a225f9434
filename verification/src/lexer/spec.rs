//! What the scanner makes of a source text, as functions of its
//! characters.

use crate::common::diagnostics::{primary_label, DiagnosticView, Severity};
use crate::common::span::{Span, SpannedRaw};
use crate::common::text::is_digit;
use crate::lexer::{
    captures_of, char_is_whitespace, invalid_token_diagnostic, is_ident_part, is_ident_start,
    literal_from_captures, offset_of, NUMBER_PATTERN, AssignmentOp, NumberLiteralView, Operator,
    Punctuation, Token,
};
use vstd::prelude::*;

verus! {

/// What a [`Token`] stands for in specifications.
pub ghost enum TokenView {
    NumberLiteral(NumberLiteralView),
    CharLiteral(Seq<char>),
    StringLiteral(Seq<char>),
    Operator(Operator),
    AssignmentOp(AssignmentOp),
    Punctuation(Punctuation),
    Identifier(Seq<char>),
}

impl View for Token {
    type V = TokenView;

    open spec fn view(&self) -> TokenView {
        match *self {
            Token::NumberLiteral(n) => TokenView::NumberLiteral(n@),
            Token::CharLiteral(s) => TokenView::CharLiteral(s@),
            Token::StringLiteral(s) => TokenView::StringLiteral(s@),
            Token::Operator(op) => TokenView::Operator(op),
            Token::AssignmentOp(op) => TokenView::AssignmentOp(op),
            Token::Punctuation(p) => TokenView::Punctuation(p),
            Token::Identifier(s) => TokenView::Identifier(s@),
        }
    }
}

/// The views of tokens with their spans, one by one.
pub open spec fn tokens_view(tokens: Seq<SpannedRaw<Token>>) -> Seq<(TokenView, Span)> {
    Seq::new(tokens.len(), |i: int| (tokens[i].0@, tokens[i].1))
}

/// What stands at a position of the text.
pub ghost enum FoundView {
    /// Text to skip: white space or a comment.
    Skip,
    /// A token.
    Token(TokenView),
    /// Text that is no token.
    Invalid,
}

/// Whether `c` is a digit of base sixteen.
pub open spec fn is_hex_digit(c: char) -> bool {
    ('0' <= c <= '9') || ('a' <= c <= 'f') || ('A' <= c <= 'F')
}

/// Whether `c` may stand among the digits of a number: an underscore, or
/// a digit of base sixteen where `hex` says so, else of base ten.
pub open spec fn is_digit_like(c: char, hex: bool) -> bool {
    c == '_' || (if hex {
        is_hex_digit(c)
    } else {
        is_digit(c)
    })
}

/// Where the line that `pos` is in ends: at the next line feed, or at the
/// end of the text.
pub open spec fn line_end(chars: Seq<char>, pos: int) -> int
    decreases chars.len() - pos,
{
    if 0 <= pos < chars.len() && chars[pos] != '\n' {
        line_end(chars, pos + 1)
    } else {
        pos
    }
}

/// Where the block comment ends whose text goes on at `pos`: after the
/// next `*/`, if there is one.
pub open spec fn comment_end(chars: Seq<char>, pos: int) -> Option<int>
    decreases chars.len() - pos,
{
    if 0 <= pos && pos + 1 < chars.len() {
        if chars[pos] == '*' && chars[pos + 1] == '/' {
            Some(pos + 2)
        } else {
            comment_end(chars, pos + 1)
        }
    } else {
        None
    }
}

/// Where the letters, digits and underscores from `pos` on end.
pub open spec fn word_end(chars: Seq<char>, pos: int) -> int
    decreases chars.len() - pos,
{
    if 0 <= pos < chars.len() && is_ident_part(chars[pos]) {
        word_end(chars, pos + 1)
    } else {
        pos
    }
}

/// Where the digits and underscores from `pos` on end.
pub open spec fn digits_end(chars: Seq<char>, pos: int, hex: bool) -> int
    decreases chars.len() - pos,
{
    if 0 <= pos < chars.len() && is_digit_like(chars[pos], hex) {
        digits_end(chars, pos + 1, hex)
    } else {
        pos
    }
}

/// Where the digits of base ten from `pos` on end.
pub open spec fn width_end(chars: Seq<char>, pos: int) -> int
    decreases chars.len() - pos,
{
    if 0 <= pos < chars.len() && is_digit(chars[pos]) {
        width_end(chars, pos + 1)
    } else {
        pos
    }
}

/// Whether the characters from `pos` on begin with the two characters
/// `a` and `b`.
pub open spec fn two_at(chars: Seq<char>, pos: int, a: char, b: char) -> bool {
    0 <= pos && pos + 1 < chars.len() && chars[pos] == a && chars[pos + 1] == b
}

/// Where the suffix of a number that may begin at `pos` ends: `i` or `u`
/// with `z` or a width; `f`, or `p` after digits of base sixteen, with
/// maybe one of the widths 16, 32, 64 and 128.
pub open spec fn suffix_end(chars: Seq<char>, pos: int, hex: bool) -> int {
    if !(0 <= pos < chars.len()) {
        pos
    } else if chars[pos] == 'i' || chars[pos] == 'u' {
        if pos + 1 < chars.len() && chars[pos + 1] == 'z' {
            pos + 2
        } else {
            width_end(chars, pos + 1)
        }
    } else if (chars[pos] == 'f' && !hex) || (chars[pos] == 'p' && hex) {
        if pos + 3 < chars.len() && chars[pos + 1] == '1' && chars[pos + 2] == '2' && chars[pos
            + 3] == '8' {
            pos + 4
        } else if two_at(chars, pos + 1, '1', '6') || two_at(chars, pos + 1, '3', '2') || two_at(
            chars,
            pos + 1,
            '6',
            '4',
        ) {
            pos + 3
        } else {
            pos + 1
        }
    } else {
        pos
    }
}

/// Whether a number of base two or eight begins at `pos`: `0b` and a
/// digit of base two, or `0o` and a digit of base eight.
pub open spec fn is_based(chars: Seq<char>, pos: int) -> bool {
    &&& 0 <= pos
    &&& pos + 2 < chars.len()
    &&& chars[pos] == '0'
    &&& (chars[pos + 1] == 'b' && (chars[pos + 2] == '0' || chars[pos + 2] == '1')) || (chars[pos
        + 1] == 'o' && '0' <= chars[pos + 2] <= '7')
}

/// Whether a number of base sixteen begins at `pos`: `0x` and a digit.
pub open spec fn is_hex(chars: Seq<char>, pos: int) -> bool {
    &&& 0 <= pos
    &&& pos + 2 < chars.len()
    &&& chars[pos] == '0'
    &&& chars[pos + 1] == 'x'
    &&& is_hex_digit(chars[pos + 2])
}

/// Where the whole part of the number of base ten at `pos` ends.
pub open spec fn whole_end(chars: Seq<char>, pos: int) -> int {
    if is_digit(chars[pos]) {
        digits_end(chars, pos + 1, false)
    } else {
        pos
    }
}

/// Where the digits of the number of base ten at `pos` end: after the
/// whole part, and after the point and the digits behind it, if a digit
/// follows the point.
pub open spec fn fraction_end(chars: Seq<char>, pos: int) -> int {
    let whole = whole_end(chars, pos);
    if whole + 1 < chars.len() && chars[whole] == '.' && is_digit(chars[whole + 1]) {
        digits_end(chars, whole + 2, false)
    } else {
        whole
    }
}

/// Where the text that is to be a number, and begins at `pos`, ends.
pub open spec fn number_end(chars: Seq<char>, pos: int) -> int {
    if is_hex(chars, pos) {
        suffix_end(chars, digits_end(chars, pos + 2, true), true)
    } else if is_based(chars, pos) {
        suffix_end(chars, digits_end(chars, pos + 2, false), false)
    } else if fraction_end(chars, pos) == pos {
        pos + 1
    } else {
        suffix_end(chars, fraction_end(chars, pos), false)
    }
}

/// Where the string ends that began at `open`, read from `pos` on: after
/// the first quote that no backslash stands before; where there is none,
/// at `fallback`, which is after the last quote that was read over.
pub open spec fn string_end(chars: Seq<char>, open: int, pos: int, fallback: Option<int>)
    -> Option<int>
    decreases chars.len() - pos,
{
    if !(0 <= pos < chars.len()) {
        fallback
    } else if chars[pos] != '"' {
        string_end(chars, open, pos + 1, fallback)
    } else if pos > open + 1 && chars[pos - 1] == '\\' {
        string_end(chars, open, pos + 1, Some(pos + 1))
    } else {
        Some(pos + 1)
    }
}

/// The token of one character that is an operator, the assignment sign
/// or a punctuation, if `c` is one.
pub open spec fn single_token(c: char) -> Option<TokenView> {
    if c == '-' {
        Some(TokenView::Operator(Operator::Neg))
    } else if c == '*' {
        Some(TokenView::Operator(Operator::Star))
    } else if c == '+' {
        Some(TokenView::Operator(Operator::Plus))
    } else if c == '/' {
        Some(TokenView::Operator(Operator::Div))
    } else if c == '<' {
        Some(TokenView::Operator(Operator::Lt))
    } else if c == '>' {
        Some(TokenView::Operator(Operator::Gt))
    } else if c == '=' {
        Some(TokenView::AssignmentOp(AssignmentOp::Assign))
    } else if c == '(' {
        Some(TokenView::Punctuation(Punctuation::LParen))
    } else if c == ')' {
        Some(TokenView::Punctuation(Punctuation::RParen))
    } else if c == '{' {
        Some(TokenView::Punctuation(Punctuation::LBrace))
    } else if c == '}' {
        Some(TokenView::Punctuation(Punctuation::RBrace))
    } else if c == ',' {
        Some(TokenView::Punctuation(Punctuation::Comma))
    } else if c == ';' {
        Some(TokenView::Punctuation(Punctuation::Semicolon))
    } else {
        None
    }
}

/// Whether a comment begins at `pos`: one to the end of the line, or a
/// block comment that is closed.
pub open spec fn is_comment(chars: Seq<char>, pos: int) -> bool {
    two_at(chars, pos, '/', '/') || (two_at(chars, pos, '/', '*') && comment_end(chars, pos + 2)
        is Some)
}

/// Where the comment that begins at `pos` ends.
pub open spec fn skipped_end(chars: Seq<char>, pos: int) -> int {
    if two_at(chars, pos, '/', '/') {
        line_end(chars, pos + 2)
    } else {
        comment_end(chars, pos + 2)->0
    }
}

/// Whether the text that is to be a number begins at `pos`: with a
/// digit, or with a point and a digit.
pub open spec fn is_number_start(chars: Seq<char>, pos: int) -> bool {
    is_digit(chars[pos]) || (chars[pos] == '.' && pos + 1 < chars.len() && is_digit(
        chars[pos + 1],
    ))
}

/// The number that `text` reads as by the pattern for numbers, if that
/// pattern is there and `text` is a number.
pub open spec fn number_read(pattern: Option<Seq<char>>, text: Seq<char>) -> Option<
    NumberLiteralView,
> {
    match pattern {
        Some(p) => literal_from_captures(captures_of(p, text)),
        None => None,
    }
}

/// What begins at `pos`, and where it ends. White space and comments are
/// to skip. Then come, each if the text begins like it: a number, which
/// is invalid if the pattern does not read it; a character between
/// single quotes; a string between double quotes; `=>`; a word; a token
/// of one character. Anything else is one invalid character.
pub open spec fn scan(chars: Seq<char>, pos: int, pattern: Option<Seq<char>>) -> (FoundView, int) {
    let c = chars[pos];
    if char_is_whitespace(c) {
        (FoundView::Skip, pos + 1)
    } else if is_comment(chars, pos) {
        (FoundView::Skip, skipped_end(chars, pos))
    } else if is_number_start(chars, pos) {
        let end = number_end(chars, pos);
        match number_read(pattern, chars.subrange(pos, end)) {
            Some(n) => (FoundView::Token(TokenView::NumberLiteral(n)), end),
            None => (FoundView::Invalid, end),
        }
    } else if c == '\'' {
        if pos + 2 < chars.len() && chars[pos + 1] != '\n' && chars[pos + 2] == '\'' {
            (FoundView::Token(TokenView::CharLiteral(chars.subrange(pos, pos + 3))), pos + 3)
        } else {
            (FoundView::Invalid, pos + 1)
        }
    } else if c == '"' {
        match string_end(chars, pos, pos + 1, None) {
            Some(end) => (
                FoundView::Token(TokenView::StringLiteral(chars.subrange(pos, end))),
                end,
            ),
            None => (FoundView::Invalid, pos + 1),
        }
    } else if two_at(chars, pos, '=', '>') {
        (FoundView::Token(TokenView::Punctuation(Punctuation::FatArrow)), pos + 2)
    } else if is_ident_start(c) {
        let end = word_end(chars, pos + 1);
        (FoundView::Token(TokenView::Identifier(chars.subrange(pos, end))), end)
    } else {
        match single_token(c) {
            Some(t) => (FoundView::Token(t), pos + 1),
            None => (FoundView::Invalid, pos + 1),
        }
    }
}

/// The tokens of a text and the reports on what is no token.
pub ghost struct LStep {
    pub tokens: Seq<(TokenView, Span)>,
    pub reports: Seq<DiagnosticView>,
}

/// The bytes of the characters from `lo` up to `hi`.
pub open spec fn bytes_of(chars: Seq<char>, file_id: usize, lo: int, hi: int) -> Span {
    Span { file_id, start: offset_of(chars, lo) as usize, end: offset_of(chars, hi) as usize }
}

/// The tokens and reports of the text from `pos` on, after `tokens` and
/// `reports`: a token is added with the bytes it takes, invalid text is
/// reported with the bytes it takes, and what is to skip is skipped.
/// Whatever is found takes at least one character, so the end of the
/// text is reached.
pub open spec fn lex_loop(
    chars: Seq<char>,
    file_id: usize,
    pattern: Option<Seq<char>>,
    pos: int,
    tokens: Seq<(TokenView, Span)>,
    reports: Seq<DiagnosticView>,
) -> LStep
    decreases chars.len() - pos,
{
    let found = scan(chars, pos, pattern);
    let span = bytes_of(chars, file_id, pos, found.1);
    if !(0 <= pos < found.1 <= chars.len()) {
        LStep { tokens, reports }
    } else {
        match found.0 {
            FoundView::Skip => lex_loop(chars, file_id, pattern, found.1, tokens, reports),
            FoundView::Token(t) => lex_loop(
                chars,
                file_id,
                pattern,
                found.1,
                tokens.push((t, span)),
                reports,
            ),
            FoundView::Invalid => lex_loop(
                chars,
                file_id,
                pattern,
                found.1,
                tokens,
                reports.push(invalid_token_diagnostic(span)),
            ),
        }
    }
}

/// The pattern for numbers, if it is there.
pub open spec fn number_pattern(there: bool) -> Option<Seq<char>> {
    if there {
        Some(NUMBER_PATTERN@)
    } else {
        None
    }
}

/// The tokens of a text and the reports on what is no token; `pattern`
/// is the pattern that numbers are read with, if there is one.
pub open spec fn lex_step(chars: Seq<char>, file_id: usize, pattern: Option<Seq<char>>) -> LStep {
    lex_loop(chars, file_id, pattern, 0, Seq::empty(), Seq::empty())
}

/// The error for source text too long to give its bytes numbers.
pub open spec fn too_long_diagnostic(file_id: usize) -> DiagnosticView {
    DiagnosticView {
        severity: Severity::Error,
        message: "source text is too long"@,
        labels: seq![primary_label(Span { file_id, start: 0, end: 0 }, Seq::empty())],
        notes: Seq::empty(),
    }
}

/// Whether the bytes of a text of these characters can be numbered.
pub open spec fn short_enough(chars: Seq<char>) -> bool {
    chars.len() <= usize::MAX / 4
}

/// The tokens of a text and the reports on what is no token, read with
/// the pattern for numbers if it is `there`. A text that is too long has
/// no tokens, and is reported.
pub open spec fn lex_spec(chars: Seq<char>, file_id: usize, there: bool) -> LStep {
    if short_enough(chars) {
        lex_step(chars, file_id, number_pattern(there))
    } else {
        LStep { tokens: Seq::empty(), reports: seq![too_long_diagnostic(file_id)] }
    }
}

/// The empty span at the end of a text: after its last byte, or at 0 if
/// the text is too long.
pub open spec fn text_end(chars: Seq<char>, file_id: usize) -> Span {
    let end: usize = if short_enough(chars) {
        offset_of(chars, chars.len() as int) as usize
    } else {
        0
    };
    Span { file_id, start: end, end }
}

/// Whether a call turned a text into `tokens` and reports as `step` says.
pub open spec fn scanned(
    step: LStep,
    tokens: Seq<SpannedRaw<Token>>,
    s0: Seq<DiagnosticView>,
    s1: Seq<DiagnosticView>,
) -> bool {
    tokens_view(tokens) =~= step.tokens && s1 =~= s0 + step.reports
}

} // verus!
