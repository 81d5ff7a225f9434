//! Tokens, and the scanner that turns source text into them.

pub mod spec;

use crate::common::diagnostics::{
    continues, lemma_continues, lemma_continues_self, lemma_pushed, primary_label, Diagnostic,
    Diagnostics, DiagnosticView, Label, Severity,
};
use crate::common::span::{Span, SpannedRaw};
use crate::common::text::{is_digit, parse_u32_from, parsed_u32};
use crate::lexer::spec::{
    comment_end, digits_end, is_digit_like, is_hex_digit, lex_loop, lex_spec, lex_step, line_end,
    number_end, number_pattern, scan, scanned, short_enough, single_token, string_end, suffix_end,
    text_end, tokens_view, too_long_diagnostic, width_end, word_end, FoundView,
};
use regex::Regex;
use vstd::prelude::*;
use vstd::std_specs::iter::IteratorSpec;
use vstd::string::{StringExecFns, StrSliceExecFns};

verus! {

/// The base a number literal is written in.
#[derive(Debug, Clone, Copy, PartialEq, Eq, Hash, Structural)]
pub enum NumberLiteralKind {
    Decimal,
    Binary,
    Octal,
    Hex,
}

/// The type a number literal states in its suffix.
#[derive(Debug, Clone, Copy, PartialEq, Eq, Hash, Structural)]
#[allow(inconsistent_fields)]
pub enum NumberLiteralType {
    /// `i` or `u`. The outer option says whether a width is given, the inner
    /// one is empty for the width of a pointer.
    Integer { bits: Option<Option<u32>>, signed: bool },
    /// `f`, with a width if one is given.
    Float { bits: Option<u8> },
}

impl NumberLiteralType {
    /// Whether the suffix gives a width.
    pub open spec fn has_bits_spec(self) -> bool {
        match self {
            NumberLiteralType::Integer { bits, .. } => bits is Some,
            NumberLiteralType::Float { bits } => bits is Some,
        }
    }

    /// Whether the suffix gives a width.
    pub fn has_bits(&self) -> (b: bool)
        ensures
            b == self.has_bits_spec(),
    {
        match self {
            NumberLiteralType::Integer { bits, signed: _ } => bits.is_some(),
            NumberLiteralType::Float { bits } => bits.is_some(),
        }
    }
}

/// A number as the source text wrote it.
#[derive(Debug, PartialEq, Eq, Hash)]
pub struct NumberLiteral {
    /// The digits, with their prefix and without the suffix.
    pub value: String,
    pub kind: NumberLiteralKind,
    pub ty: Option<NumberLiteralType>,
}

/// What a [`NumberLiteral`] stands for in specifications.
pub ghost struct NumberLiteralView {
    pub value: Seq<char>,
    pub kind: NumberLiteralKind,
    pub ty: Option<NumberLiteralType>,
}

impl View for NumberLiteral {
    type V = NumberLiteralView;

    open spec fn view(&self) -> NumberLiteralView {
        NumberLiteralView { value: self.value@, kind: self.kind, ty: self.ty }
    }
}

impl Clone for NumberLiteral {
    fn clone(&self) -> (res: Self)
        ensures
            res == *self,
    {
        NumberLiteral { value: self.value.clone(), kind: self.kind, ty: self.ty }
    }
}

#[derive(Debug, Clone, Copy, PartialEq, Eq, Hash, Structural)]
pub enum Operator {
    Neg,
    Star,
    Plus,
    Div,
    Lt,
    Gt,
}

#[derive(Debug, Clone, Copy, PartialEq, Eq, Hash, Structural)]
pub enum AssignmentOp {
    Assign,
}

#[derive(Debug, Clone, Copy, PartialEq, Eq, Hash, Structural)]
pub enum Punctuation {
    LParen,
    RParen,
    LBrace,
    RBrace,
    Comma,
    FatArrow,
    Semicolon,
}

/// The words the grammar gives a meaning of their own. The scanner hands
/// them out as identifiers; the parser tells them apart.
#[derive(Debug, Clone, Copy, PartialEq, Eq, Hash, Structural)]
pub enum Keyword {
    Function,
    Return,
    Yield,
    External,
    Pure,
    Unsafe,
    Let,
    Mut,
    DontCare,
}

/// One lexical unit of the source text.
#[derive(Debug, PartialEq, Eq, Hash)]
pub enum Token {
    NumberLiteral(NumberLiteral),
    CharLiteral(String),
    StringLiteral(String),
    Operator(Operator),
    AssignmentOp(AssignmentOp),
    Punctuation(Punctuation),
    Identifier(String),
}

impl Clone for Token {
    fn clone(&self) -> (res: Self)
        ensures
            res == *self,
    {
        match self {
            Token::NumberLiteral(n) => Token::NumberLiteral(n.clone()),
            Token::CharLiteral(s) => Token::CharLiteral(s.clone()),
            Token::StringLiteral(s) => Token::StringLiteral(s.clone()),
            Token::Operator(o) => Token::Operator(*o),
            Token::AssignmentOp(o) => Token::AssignmentOp(*o),
            Token::Punctuation(p) => Token::Punctuation(*p),
            Token::Identifier(s) => Token::Identifier(s.clone()),
        }
    }
}

/// The characters of a text, in order.
pub fn chars_of(code: &str) -> (v: Vec<char>)
    ensures
        v@ == code@,
{
    let mut v: Vec<char> = Vec::new();
    let chars = code.chars();
    for c in it: chars
        invariant
            it.seq() == code@,
            v@ == it.seq().take(it.index() as int),
    {
        v.push(c);
        assert(it.seq().take(it.index() + 1) =~= it.seq().take(it.index() as int).push(c));
    }
    assert(code@.take(code@.len() as int) =~= code@);
    v
}

/// `regex::Regex`, a compiled regular expression.
#[verifier::external_type_specification]
#[verifier::external_body]
pub struct ExRegex(regex::Regex);

/// `regex::Error`, why a pattern did not compile.
#[verifier::external_type_specification]
#[verifier::external_body]
pub struct ExRegexError(regex::Error);

/// The pattern that a regular expression was compiled from.
pub uninterp spec fn regex_pattern(re: Regex) -> Seq<char>;

/// What matching a pattern against a text captures: nothing if the pattern
/// does not match, else the text of each group, the whole match first; a
/// group that took no part has none.
pub uninterp spec fn captures_of(pattern: Seq<char>, text: Seq<char>) -> Option<
    Seq<Option<Seq<char>>>,
>;

/// The texts of captured groups as specification values.
pub open spec fn groups_view(groups: Option<Vec<Option<String>>>) -> Option<Seq<Option<Seq<char>>>> {
    match groups {
        Some(v) => Some(
            Seq::new(
                v@.len(),
                |i: int|
                    match v@[i] {
                        Some(s) => Some(s@),
                        None => None,
                    },
            ),
        ),
        None => None,
    }
}

/// `Regex::new` compiles a pattern, or says why it cannot. The compiled
/// expression remembers its pattern.
#[verifier::external_body]
fn regex_new(pattern: &str) -> (res: Result<Regex, regex::Error>)
    ensures
        res matches Ok(re) ==> regex_pattern(re) == pattern@,
{
    Regex::new(pattern)
}

/// `Regex::captures` matches the expression against a text and returns
/// the text of each group of the leftmost match, if there is a match.
#[verifier::external_body]
fn regex_captures(re: &Regex, text: &str) -> (res: Option<Vec<Option<String>>>)
    ensures
        groups_view(res) == captures_of(regex_pattern(*re), text@),
{
    let caps = re.captures(text);
    caps.map(|c| c.iter().map(|m| m.map(|m| m.as_str().to_string())).collect())
}

/// The pattern of a whole number literal. Its groups are, in order: the
/// digits of a literal that is not hexadecimal, the suffix of such a
/// literal, the digits of a hexadecimal literal, and its suffix.
pub const NUMBER_PATTERN: &'static str =
    r"^(?:([0-9][0-9_]*|(?:[0-9][0-9_]*)?\.[0-9][0-9_]*|0b[01][01_]*|0o[0-7][0-7_]*)(i(?:z|[0-9]*)|u(?:z|[0-9]*)?|f(?:16|32|64|128)?)?|(0x[0-9a-fA-F][0-9a-fA-F_]*)(i(?:z|[0-9]*)|u(?:z|[0-9]*)?|p(?:16|32|64|128)?)?)$";

/// The type that a suffix states: `i` or `u` for an integer, alone for no
/// width, with `z` for the width of a pointer, else with the width; `f`
/// or `p` for a float, alone or with the width. Anything else is no
/// suffix.
pub open spec fn suffix_type(suffix: Seq<char>) -> Option<NumberLiteralType> {
    if suffix.len() == 0 {
        None
    } else {
        let rest = suffix.subrange(1, suffix.len() as int);
        if suffix[0] == 'i' || suffix[0] == 'u' {
            let signed = suffix[0] == 'i';
            if rest.len() == 0 {
                Some(NumberLiteralType::Integer { bits: None, signed })
            } else if rest.len() == 1 && rest[0] == 'z' {
                Some(NumberLiteralType::Integer { bits: Some(None), signed })
            } else {
                match parsed_u32(rest) {
                    Some(n) => Some(NumberLiteralType::Integer { bits: Some(Some(n)), signed }),
                    None => None,
                }
            }
        } else if suffix[0] == 'f' || suffix[0] == 'p' {
            if rest.len() == 0 {
                Some(NumberLiteralType::Float { bits: None })
            } else {
                match parsed_u32(rest) {
                    Some(n) => if n <= 255 {
                        Some(NumberLiteralType::Float { bits: Some(n as u8) })
                    } else {
                        None
                    },
                    None => None,
                }
            }
        } else {
            None
        }
    }
}

/// The base of a literal that is not hexadecimal, by its first two
/// characters.
pub open spec fn plain_kind(digits: Seq<char>) -> NumberLiteralKind {
    if digits.len() >= 2 && digits[0] == '0' && digits[1] == 'b' {
        NumberLiteralKind::Binary
    } else if digits.len() >= 2 && digits[0] == '0' && digits[1] == 'o' {
        NumberLiteralKind::Octal
    } else {
        NumberLiteralKind::Decimal
    }
}

/// The literal with the digits `value`, the base `kind` and the suffix
/// `suffix`, if the suffix, where there is one, states a type.
pub open spec fn literal_with(
    value: Seq<char>,
    kind: NumberLiteralKind,
    suffix: Option<Seq<char>>,
) -> Option<NumberLiteralView> {
    match suffix {
        Some(sfx) => match suffix_type(sfx) {
            Some(ty) => Some(NumberLiteralView { value, kind, ty: Some(ty) }),
            None => None,
        },
        None => Some(NumberLiteralView { value, kind, ty: None }),
    }
}

/// The number literal that the captures of [`NUMBER_PATTERN`] describe,
/// if they describe one.
pub open spec fn literal_from_captures(caps: Option<Seq<Option<Seq<char>>>>) -> Option<
    NumberLiteralView,
> {
    match caps {
        None => None,
        Some(groups) => if groups.len() != 5 {
            None
        } else {
            match groups[3] {
                Some(hex) => literal_with(hex, NumberLiteralKind::Hex, groups[4]),
                None => match groups[1] {
                    Some(digits) => literal_with(digits, plain_kind(digits), groups[2]),
                    None => None,
                },
            }
        },
    }
}

/// The type that a suffix states.
pub fn parse_suffix(suffix: &str) -> (res: Option<NumberLiteralType>)
    ensures
        res == suffix_type(suffix@),
{
    let n = suffix.unicode_len();
    if n == 0 {
        return None;
    }
    let class = suffix.get_char(0);
    let ghost rest = suffix@.subrange(1, n as int);
    if class == 'i' || class == 'u' {
        let signed = class == 'i';
        if n == 1 {
            Some(NumberLiteralType::Integer { bits: None, signed })
        } else if n == 2 && suffix.get_char(1) == 'z' {
            assert(rest[0] == suffix@[1]);
            Some(NumberLiteralType::Integer { bits: Some(None), signed })
        } else {
            proof {
                if rest.len() == 1 {
                    assert(rest[0] == suffix@[1]);
                }
            }
            match parse_u32_from(suffix, 1) {
                Some(bits) => Some(NumberLiteralType::Integer { bits: Some(Some(bits)), signed }),
                None => None,
            }
        }
    } else if class == 'f' || class == 'p' {
        if n == 1 {
            Some(NumberLiteralType::Float { bits: None })
        } else {
            match parse_u32_from(suffix, 1) {
                Some(bits) => if bits <= 255 {
                    Some(NumberLiteralType::Float { bits: Some(bits as u8) })
                } else {
                    None
                },
                None => None,
            }
        }
    } else {
        None
    }
}

/// The base of a literal that is not hexadecimal.
fn kind_of(digits: &str) -> (kind: NumberLiteralKind)
    ensures
        kind == plain_kind(digits@),
{
    if digits.unicode_len() >= 2 && digits.get_char(0) == '0' {
        let second = digits.get_char(1);
        if second == 'b' {
            NumberLiteralKind::Binary
        } else if second == 'o' {
            NumberLiteralKind::Octal
        } else {
            NumberLiteralKind::Decimal
        }
    } else {
        NumberLiteralKind::Decimal
    }
}

/// The literal with the given digits, base and suffix.
fn build_literal(value: &String, kind: NumberLiteralKind, suffix: &Option<String>) -> (res: Option<
    NumberLiteral,
>)
    ensures
        match res {
            Some(n) => Some(n@),
            None => None,
        } == literal_with(
            value@,
            kind,
            match *suffix {
                Some(s) => Some(s@),
                None => None,
            },
        ),
{
    match suffix {
        Some(sfx) => match parse_suffix(sfx.as_str()) {
            Some(ty) => Some(NumberLiteral { value: value.clone(), kind, ty: Some(ty) }),
            None => None,
        },
        None => Some(NumberLiteral { value: value.clone(), kind, ty: None }),
    }
}

/// The view of a literal that may be missing.
pub open spec fn opt_literal_view(n: Option<NumberLiteral>) -> Option<NumberLiteralView> {
    match n {
        Some(x) => Some(x@),
        None => None,
    }
}

/// The number literal that the captures of [`NUMBER_PATTERN`] describe:
/// the digits with their prefix, the base, and the type that the suffix
/// states.
pub fn number_literal_from_captures(caps: &Option<Vec<Option<String>>>) -> (res: Option<
    NumberLiteral,
>)
    ensures
        opt_literal_view(res) == literal_from_captures(groups_view(*caps)),
{
    match caps {
        None => None,
        Some(groups) => {
            if groups.len() != 5 {
                return None;
            }
            match &groups[3] {
                Some(hex) => build_literal(hex, NumberLiteralKind::Hex, &groups[4]),
                None => match &groups[1] {
                    Some(digits) => {
                        let kind = kind_of(digits.as_str());
                        build_literal(digits, kind, &groups[2])
                    },
                    None => None,
                },
            }
        },
    }
}

/// Reads a whole number literal with the expression `re`, which is to be
/// compiled from [`NUMBER_PATTERN`].
pub fn parse_number_literal(text: &str, re: &Regex) -> (res: Option<NumberLiteral>)
    ensures
        opt_literal_view(res) == literal_from_captures(captures_of(regex_pattern(*re), text@)),
{
    let caps = regex_captures(re, text);
    number_literal_from_captures(&caps)
}

impl Operator {
    /// How the operator is written.
    pub open spec fn text_spec(self) -> Seq<char> {
        match self {
            Operator::Neg => seq!['-'],
            Operator::Star => seq!['*'],
            Operator::Plus => seq!['+'],
            Operator::Div => seq!['/'],
            Operator::Lt => seq!['<'],
            Operator::Gt => seq!['>'],
        }
    }

    /// How the operator is written.
    pub fn to_string(&self) -> (s: String)
        ensures
            s@ == self.text_spec(),
    {
        let mut s = String::new();
        s.push(
            match self {
                Operator::Neg => '-',
                Operator::Star => '*',
                Operator::Plus => '+',
                Operator::Div => '/',
                Operator::Lt => '<',
                Operator::Gt => '>',
            },
        );
        assert(s@ =~= self.text_spec());
        s
    }
}

impl Punctuation {
    /// How the punctuation is written.
    pub open spec fn text_spec(self) -> Seq<char> {
        match self {
            Punctuation::LParen => seq!['('],
            Punctuation::RParen => seq![')'],
            Punctuation::LBrace => seq!['{'],
            Punctuation::RBrace => seq!['}'],
            Punctuation::Comma => seq![','],
            Punctuation::FatArrow => seq!['=', '>'],
            Punctuation::Semicolon => seq![';'],
        }
    }

    /// How the punctuation is written.
    pub fn to_string(&self) -> (s: String)
        ensures
            s@ == self.text_spec(),
    {
        let mut s = String::new();
        match self {
            Punctuation::LParen => s.push('('),
            Punctuation::RParen => s.push(')'),
            Punctuation::LBrace => s.push('{'),
            Punctuation::RBrace => s.push('}'),
            Punctuation::Comma => s.push(','),
            Punctuation::FatArrow => {
                s.push('=');
                s.push('>');
            },
            Punctuation::Semicolon => s.push(';'),
        }
        assert(s@ =~= self.text_spec());
        s
    }
}

/// Whether Unicode counts `c` as white space.
pub uninterp spec fn char_is_whitespace(c: char) -> bool;

/// `char::is_whitespace` decides by the Unicode tables; its result is
/// named, not stated.
pub assume_specification[ char::is_whitespace ](c: char) -> (b: bool)
    ensures
        b == char_is_whitespace(c),
;

/// Whether an identifier may begin with `c`.
pub open spec fn is_ident_start(c: char) -> bool {
    ('a' <= c <= 'z') || ('A' <= c <= 'Z') || c == '_'
}

/// Whether an identifier may go on with `c`.
pub open spec fn is_ident_part(c: char) -> bool {
    is_ident_start(c) || is_digit(c)
}

/// Whether `text` is an identifier: a letter or underscore, then letters,
/// digits and underscores.
pub open spec fn is_identifier(text: Seq<char>) -> bool {
    &&& text.len() > 0
    &&& is_ident_start(text[0])
    &&& forall|i: int| 0 <= i < text.len() ==> is_ident_part(#[trigger] text[i])
}

/// Whether `token` is what the source text `text` reads as.
pub open spec fn token_reads(token: Token, text: Seq<char>) -> bool {
    match token {
        Token::NumberLiteral(n) => Some(n@) == literal_from_captures(
            captures_of(NUMBER_PATTERN@, text),
        ),
        Token::CharLiteral(s) => s@ == text && text.len() == 3 && text[0] == '\'' && text[2]
            == '\'' && text[1] != '\n',
        Token::StringLiteral(s) => s@ == text && text.len() >= 2 && text[0] == '"' && text.last()
            == '"',
        Token::Operator(op) => text == op.text_spec(),
        Token::AssignmentOp(_) => text == seq!['='],
        Token::Punctuation(p) => text == p.text_spec(),
        Token::Identifier(s) => s@ == text && is_identifier(text),
    }
}

/// The number of bytes that `c` takes in the source text.
pub open spec fn utf8_len(c: char) -> nat {
    if (c as u32) < 0x80 {
        1
    } else if (c as u32) < 0x800 {
        2
    } else if (c as u32) < 0x10000 {
        3
    } else {
        4
    }
}

/// The byte at which the character with index `i` begins.
pub open spec fn offset_of(chars: Seq<char>, i: int) -> nat
    decreases i,
{
    if i <= 0 {
        0
    } else {
        offset_of(chars, i - 1) + utf8_len(chars[i - 1])
    }
}

/// Whether `tokens` are laid over the characters `chars` as `ranges` say:
/// each token reads the characters of its range, its span is the bytes of
/// its range, and the ranges follow each other without overlap.
pub open spec fn tokens_laid(
    chars: Seq<char>,
    file_id: usize,
    tokens: Seq<SpannedRaw<Token>>,
    ranges: Seq<(int, int)>,
) -> bool {
    &&& tokens.len() == ranges.len()
    &&& forall|i: int|
        0 <= i < ranges.len() ==> {
            let (lo, hi) = #[trigger] ranges[i];
            &&& 0 <= lo < hi <= chars.len()
            &&& i > 0 ==> ranges[i - 1].1 <= lo
            &&& tokens[i].1 == (Span {
                file_id,
                start: offset_of(chars, lo) as usize,
                end: offset_of(chars, hi) as usize,
            })
            &&& token_reads(tokens[i].0, chars.subrange(lo, hi))
        }
}

/// The error for source text that is no token.
pub open spec fn invalid_token_diagnostic(span: Span) -> DiagnosticView {
    DiagnosticView {
        severity: Severity::Error,
        message: "could not parse token"@,
        labels: seq![primary_label(span, "invalid token"@)],
        notes: Seq::empty(),
    }
}

/// Whether everything in `later` after `earlier` reports source text that
/// is no token.
pub open spec fn only_invalid_tokens(later: Seq<DiagnosticView>, earlier: Seq<DiagnosticView>)
    -> bool {
    forall|j: int|
        earlier.len() <= j < later.len() ==> exists|span: Span| #[trigger]
            later[j] == invalid_token_diagnostic(span)
}

fn invalid_token(sink: &mut Diagnostics, span: Span)
    ensures
        final(sink)@ == old(sink)@.push(invalid_token_diagnostic(span)),
{
    let mut labels: Vec<Label> = Vec::new();
    labels.push(Label::primary(span, String::from_str("invalid token")));
    let d = Diagnostic {
        severity: Severity::Error,
        message: String::from_str("could not parse token"),
        labels,
        notes: Vec::new(),
    };
    assert(d@.labels =~= invalid_token_diagnostic(span).labels);
    assert(d@.notes =~= invalid_token_diagnostic(span).notes);
    sink.push(d);
}

fn utf8_width(c: char) -> (n: usize)
    ensures
        n == utf8_len(c),
        1 <= n <= 4,
{
    let code = c as u32;
    if code < 0x80 {
        1
    } else if code < 0x800 {
        2
    } else if code < 0x10000 {
        3
    } else {
        4
    }
}

/// Offsets grow by at most four bytes a character.
pub proof fn lemma_offset_bound(chars: Seq<char>, i: int)
    requires
        0 <= i,
    ensures
        i <= offset_of(chars, i) <= 4 * i,
    decreases i,
{
    if i > 0 {
        lemma_offset_bound(chars, i - 1);
    }
}

/// The byte at which the character `end` begins, counted on from `pos`.
fn offset_to(chars: &Vec<char>, pos: usize, off: usize, end: usize) -> (res: usize)
    requires
        pos <= end <= chars.len(),
        off == offset_of(chars@, pos as int),
        chars.len() <= usize::MAX / 4,
    ensures
        res == offset_of(chars@, end as int),
{
    let mut i = pos;
    let mut res = off;
    while i < end
        invariant
            pos <= i <= end <= chars.len(),
            res == offset_of(chars@, i as int),
            chars.len() <= usize::MAX / 4,
        decreases end - i,
    {
        proof {
            lemma_offset_bound(chars@, i as int);
        }
        res = res + utf8_width(chars[i]);
        i += 1;
    }
    res
}

/// The characters from `lo` to `hi` as a string.
fn slice_text(chars: &Vec<char>, lo: usize, hi: usize) -> (s: String)
    requires
        lo <= hi <= chars.len(),
    ensures
        s@ == chars@.subrange(lo as int, hi as int),
{
    let mut s = String::new();
    let mut i = lo;
    assert(chars@.subrange(lo as int, lo as int) =~= Seq::empty());
    while i < hi
        invariant
            lo <= i <= hi <= chars.len(),
            s@ == chars@.subrange(lo as int, i as int),
        decreases hi - i,
    {
        s.push(chars[i]);
        assert(chars@.subrange(lo as int, i + 1) =~= chars@.subrange(lo as int, i as int).push(
            chars[i as int],
        ));
        i += 1;
    }
    s
}

fn ident_start(c: char) -> (b: bool)
    ensures
        b == is_ident_start(c),
{
    (c >= 'a' && c <= 'z') || (c >= 'A' && c <= 'Z') || c == '_'
}

fn digit(c: char) -> (b: bool)
    ensures
        b == is_digit(c),
{
    c >= '0' && c <= '9'
}

fn hex_digit(c: char) -> (b: bool)
    ensures
        b == is_hex_digit(c),
{
    (c >= '0' && c <= '9') || (c >= 'a' && c <= 'f') || (c >= 'A' && c <= 'F')
}

/// Where the identifier that begins at `pos` ends.
fn scan_ident(chars: &Vec<char>, pos: usize) -> (end: usize)
    requires
        pos < chars.len(),
        is_ident_start(chars[pos as int]),
    ensures
        pos < end <= chars.len(),
        is_identifier(chars@.subrange(pos as int, end as int)),
        end == word_end(chars@, pos + 1),
{
    let mut end = pos + 1;
    while end < chars.len() && (ident_start(chars[end]) || digit(chars[end]))
        invariant
            pos < end <= chars.len(),
            forall|i: int| pos <= i < end ==> is_ident_part(#[trigger] chars[i]),
            word_end(chars@, end as int) == word_end(chars@, pos + 1),
        decreases chars.len() - end,
    {
        end += 1;
    }
    assert forall|i: int| 0 <= i < end - pos implies is_ident_part(
        #[trigger] chars@.subrange(pos as int, end as int)[i],
    ) by {
        assert(is_ident_part(chars[pos + i]));
    }
    end
}

fn digit_or_underscore(c: char, hex: bool) -> (b: bool)
    ensures
        b == is_digit_like(c, hex),
{
    if c == '_' {
        true
    } else if hex {
        hex_digit(c)
    } else {
        digit(c)
    }
}

/// Skips digits of the given kind, and underscores.
fn skip_digits(chars: &Vec<char>, pos: usize, hex: bool) -> (end: usize)
    requires
        pos <= chars.len(),
    ensures
        pos <= end <= chars.len(),
        end == digits_end(chars@, pos as int, hex),
{
    let mut end = pos;
    while end < chars.len() && digit_or_underscore(chars[end], hex)
        invariant
            pos <= end <= chars.len(),
            digits_end(chars@, end as int, hex) == digits_end(chars@, pos as int, hex),
        decreases chars.len() - end,
    {
        end += 1;
    }
    end
}

/// Where the suffix that may begin at `pos` ends: the family, then `z`,
/// digits, or one of the float widths.
fn skip_suffix(chars: &Vec<char>, pos: usize, hex: bool) -> (end: usize)
    requires
        chars.len() <= usize::MAX / 4,
        pos <= chars.len(),
    ensures
        pos <= end <= chars.len(),
        end == suffix_end(chars@, pos as int, hex),
{
    if pos >= chars.len() {
        return pos;
    }
    let c = chars[pos];
    if c == 'i' || c == 'u' {
        if pos + 1 < chars.len() && chars[pos + 1] == 'z' {
            pos + 2
        } else {
            let mut end = pos + 1;
            while end < chars.len() && digit(chars[end])
                invariant
                    pos < end <= chars.len(),
                    width_end(chars@, end as int) == width_end(chars@, pos + 1),
                decreases chars.len() - end,
            {
                end += 1;
            }
            end
        }
    } else if (c == 'f' && !hex) || (c == 'p' && hex) {
        let n = chars.len();
        if pos + 3 < n && chars[pos + 1] == '1' && chars[pos + 2] == '2' && chars[pos + 3] == '8' {
            pos + 4
        } else if pos + 2 < n && ((chars[pos + 1] == '1' && chars[pos + 2] == '6') || (chars[pos
            + 1] == '3' && chars[pos + 2] == '2') || (chars[pos + 1] == '6' && chars[pos + 2]
            == '4')) {
            pos + 3
        } else {
            pos + 1
        }
    } else {
        pos
    }
}

/// Where the number literal that begins at `pos` ends.
fn scan_number(chars: &Vec<char>, pos: usize) -> (end: usize)
    requires
        chars.len() <= usize::MAX / 4,
        pos < chars.len(),
    ensures
        pos < end <= chars.len(),
        end == number_end(chars@, pos as int),
{
    let n = chars.len();
    let first = chars[pos];
    if first == '0' && pos + 2 < n && (chars[pos + 1] == 'x' && hex_digit(chars[pos + 2])) {
        let digits = skip_digits(chars, pos + 2, true);
        return skip_suffix(chars, digits, true);
    }
    if first == '0' && pos + 2 < n && ((chars[pos + 1] == 'b' && (chars[pos + 2] == '0'
        || chars[pos + 2] == '1')) || (chars[pos + 1] == 'o' && chars[pos + 2] >= '0'
        && chars[pos + 2] <= '7')) {
        let digits = skip_digits(chars, pos + 2, false);
        return skip_suffix(chars, digits, false);
    }
    let whole = if digit(first) {
        skip_digits(chars, pos + 1, false)
    } else {
        pos
    };
    let digits = if whole + 1 < n && chars[whole] == '.' && digit(chars[whole + 1]) {
        skip_digits(chars, whole + 2, false)
    } else {
        whole
    };
    if digits == pos {
        return pos + 1;
    }
    skip_suffix(chars, digits, false)
}

/// A position that may be missing, as a specification value.
pub open spec fn ends_view(end: Option<usize>) -> Option<int> {
    match end {
        Some(e) => Some(e as int),
        None => None,
    }
}

/// Where the string literal that begins at `pos` ends, if it ends: at the
/// first quote that no backslash stands before, or else at the last quote
/// of all.
fn scan_string(chars: &Vec<char>, pos: usize) -> (res: Option<usize>)
    requires
        chars.len() <= usize::MAX / 4,
        pos < chars.len(),
        chars[pos as int] == '"',
    ensures
        res matches Some(end) ==> pos + 1 < end <= chars.len() && chars[end - 1] == '"',
        ends_view(res) == string_end(chars@, pos as int, pos + 1, None),
{
    let mut candidate: Option<usize> = None;
    let mut i = pos + 1;
    while i < chars.len()
        invariant
            pos < i <= chars.len(),
            candidate matches Some(end) ==> pos + 1 < end <= chars.len() && chars[end - 1] == '"',
            string_end(chars@, pos as int, i as int, ends_view(candidate)) == string_end(
                chars@,
                pos as int,
                pos + 1,
                None,
            ),
        decreases chars.len() - i,
    {
        if chars[i] == '"' {
            if i > pos + 1 && chars[i - 1] == '\\' {
                candidate = Some(i + 1);
            } else {
                return Some(i + 1);
            }
        }
        i += 1;
    }
    candidate
}

/// Where the block comment that begins at `pos` ends, if it ends.
fn scan_block_comment(chars: &Vec<char>, pos: usize) -> (res: Option<usize>)
    requires
        chars.len() <= usize::MAX / 4,
        pos + 1 < chars.len(),
    ensures
        res matches Some(end) ==> pos + 1 < end <= chars.len(),
        ends_view(res) == comment_end(chars@, pos + 2),
{
    let mut i = pos + 2;
    while i + 1 < chars.len()
        invariant
            pos + 1 < i <= chars.len(),
            chars.len() <= usize::MAX / 4,
            comment_end(chars@, i as int) == comment_end(chars@, pos + 2),
        decreases chars.len() - i,
    {
        if chars[i] == '*' && chars[i + 1] == '/' {
            return Some(i + 2);
        }
        i += 1;
    }
    None
}

/// The token of one character that is an operator, an assignment or a
/// punctuation, if `c` is one.
fn single(c: char) -> (res: Option<Token>)
    ensures
        res matches Some(t) ==> token_reads(t, seq![c]),
        res matches Some(t) ==> single_token(c) == Some(t@),
        res is None ==> single_token(c) is None,
{
    let t = if c == '-' {
        Token::Operator(Operator::Neg)
    } else if c == '*' {
        Token::Operator(Operator::Star)
    } else if c == '+' {
        Token::Operator(Operator::Plus)
    } else if c == '/' {
        Token::Operator(Operator::Div)
    } else if c == '<' {
        Token::Operator(Operator::Lt)
    } else if c == '>' {
        Token::Operator(Operator::Gt)
    } else if c == '=' {
        Token::AssignmentOp(AssignmentOp::Assign)
    } else if c == '(' {
        Token::Punctuation(Punctuation::LParen)
    } else if c == ')' {
        Token::Punctuation(Punctuation::RParen)
    } else if c == '{' {
        Token::Punctuation(Punctuation::LBrace)
    } else if c == '}' {
        Token::Punctuation(Punctuation::RBrace)
    } else if c == ',' {
        Token::Punctuation(Punctuation::Comma)
    } else if c == ';' {
        Token::Punctuation(Punctuation::Semicolon)
    } else {
        return None;
    };
    Some(t)
}

/// What the scanner found at a position.
enum Found {
    /// Text to skip: white space or a comment.
    Skip,
    /// A token.
    Token(Token),
    /// Text that is no token.
    Invalid,
}

/// What was found, as a specification value.
spec fn found_view(found: Found) -> FoundView {
    match found {
        Found::Skip => FoundView::Skip,
        Found::Token(t) => FoundView::Token(t@),
        Found::Invalid => FoundView::Invalid,
    }
}

/// The pattern that numbers are read with, if there is one.
pub open spec fn pattern_of(re: Option<Regex>) -> Option<Seq<char>> {
    match re {
        Some(r) => Some(regex_pattern(r)),
        None => None,
    }
}

/// Reads what begins at `pos`: returns what it is and where it ends.
fn scan_one(chars: &Vec<char>, pos: usize, re: &Option<Regex>) -> (res: (Found, usize))
    requires
        chars.len() <= usize::MAX / 4,
        pos < chars.len(),
        *re matches Some(r) ==> regex_pattern(r) == NUMBER_PATTERN@,
    ensures
        pos < res.1 <= chars.len(),
        res.0 matches Found::Token(t) ==> token_reads(t, chars@.subrange(pos as int, res.1 as int)),
        (found_view(res.0), res.1 as int) == scan(chars@, pos as int, pattern_of(*re)),
{
    let n = chars.len();
    let c = chars[pos];
    if c.is_whitespace() {
        return (Found::Skip, pos + 1);
    }
    if c == '/' && pos + 1 < n {
        if chars[pos + 1] == '/' {
            let mut end = pos + 2;
            while end < n && chars[end] != '\n'
                invariant
                    pos < end <= n,
                    n == chars.len(),
                    line_end(chars@, end as int) == line_end(chars@, pos + 2),
                decreases n - end,
            {
                end += 1;
            }
            return (Found::Skip, end);
        }
        if chars[pos + 1] == '*' {
            match scan_block_comment(chars, pos) {
                Some(end) => {
                    return (Found::Skip, end);
                },
                None => {},
            }
        }
    }
    if digit(c) || (c == '.' && pos + 1 < n && digit(chars[pos + 1])) {
        let end = scan_number(chars, pos);
        let text = slice_text(chars, pos, end);
        let literal = match re {
            Some(r) => parse_number_literal(text.as_str(), r),
            None => None,
        };
        return match literal {
            Some(number) => (Found::Token(Token::NumberLiteral(number)), end),
            None => (Found::Invalid, end),
        };
    }
    if c == '\'' {
        if pos + 2 < n && chars[pos + 1] != '\n' && chars[pos + 2] == '\'' {
            let text = slice_text(chars, pos, pos + 3);
            return (Found::Token(Token::CharLiteral(text)), pos + 3);
        }
        return (Found::Invalid, pos + 1);
    }
    if c == '"' {
        return match scan_string(chars, pos) {
            Some(end) => {
                let text = slice_text(chars, pos, end);
                (Found::Token(Token::StringLiteral(text)), end)
            },
            None => (Found::Invalid, pos + 1),
        };
    }
    if c == '=' && pos + 1 < n && chars[pos + 1] == '>' {
        assert(chars@.subrange(pos as int, pos + 2) =~= seq!['=', '>']);
        return (Found::Token(Token::Punctuation(Punctuation::FatArrow)), pos + 2);
    }
    if ident_start(c) {
        let end = scan_ident(chars, pos);
        let text = slice_text(chars, pos, end);
        return (Found::Token(Token::Identifier(text)), end);
    }
    match single(c) {
        Some(t) => {
            assert(chars@.subrange(pos as int, pos + 1) =~= seq![c]);
            (Found::Token(t), pos + 1)
        },
        None => (Found::Invalid, pos + 1),
    }
}

/// Turns the characters of a source text into tokens, reading numbers
/// with the expression `re`, which is compiled from [`NUMBER_PATTERN`];
/// without it no number is read. The tokens and the reports are those of
/// [`lex_step`].
pub fn lex_with(chars: &Vec<char>, file_id: usize, re: &Option<Regex>, sink: &mut Diagnostics) -> (tokens:
    Vec<SpannedRaw<Token>>)
    requires
        chars.len() <= usize::MAX / 4,
        *re matches Some(r) ==> regex_pattern(r) == NUMBER_PATTERN@,
    ensures
        scanned(lex_step(chars@, file_id, pattern_of(*re)), tokens@, old(sink)@, final(sink)@),
        exists|ranges: Seq<(int, int)>| tokens_laid(chars@, file_id, tokens@, ranges),
        continues(final(sink)@, old(sink)@),
        only_invalid_tokens(final(sink)@, old(sink)@),
{
    let ghost s0 = sink@;
    let ghost goal = lex_step(chars@, file_id, pattern_of(*re));
    let mut tokens: Vec<SpannedRaw<Token>> = Vec::new();
    let ghost mut ranges: Seq<(int, int)> = Seq::empty();
    let mut pos: usize = 0;
    let mut off: usize = 0;
    proof {
        lemma_continues_self(s0);
        assert(tokens_view(tokens@) =~= Seq::empty());
        assert(sink@.skip(s0.len() as int) =~= Seq::empty());
    }
    while pos < chars.len()
        invariant
            pos <= chars.len(),
            chars.len() <= usize::MAX / 4,
            *re matches Some(r) ==> regex_pattern(r) == NUMBER_PATTERN@,
            s0 == old(sink)@,
            s0.len() <= sink@.len(),
            sink@.take(s0.len() as int) == s0,
            goal == lex_step(chars@, file_id, pattern_of(*re)),
            goal == lex_loop(
                chars@,
                file_id,
                pattern_of(*re),
                pos as int,
                tokens_view(tokens@),
                sink@.skip(s0.len() as int),
            ),
            off == offset_of(chars@, pos as int),
            tokens_laid(chars@, file_id, tokens@, ranges),
            ranges.len() > 0 ==> ranges.last().1 <= pos,
            continues(sink@, s0),
            only_invalid_tokens(sink@, s0),
        decreases chars.len() - pos,
    {
        let (found, end) = scan_one(chars, pos, re);
        let end_off = offset_to(chars, pos, off, end);
        let span = Span { file_id, start: off, end: end_off };
        let ghost s1 = sink@;
        match found {
            Found::Skip => {},
            Found::Token(token) => {
                let ghost before = tokens@;
                let ghost old_ranges = ranges;
                tokens.push((token, span));
                proof {
                    assert(tokens_view(tokens@) =~= tokens_view(before).push((token@, span)));
                    ranges = ranges.push((pos as int, end as int));
                    assert forall|i: int| 0 <= i < ranges.len() implies {
                        let (lo, hi) = #[trigger] ranges[i];
                        &&& 0 <= lo < hi <= chars@.len()
                        &&& i > 0 ==> ranges[i - 1].1 <= lo
                        &&& tokens@[i].1 == (Span {
                            file_id,
                            start: offset_of(chars@, lo) as usize,
                            end: offset_of(chars@, hi) as usize,
                        })
                        &&& token_reads(tokens@[i].0, chars@.subrange(lo, hi))
                    } by {
                        if i < old_ranges.len() {
                            assert(ranges[i] == old_ranges[i]);
                            assert(tokens@[i] == before[i]);
                            if i > 0 {
                                assert(ranges[i - 1] == old_ranges[i - 1]);
                            }
                        } else {
                            if i > 0 {
                                assert(ranges[i - 1] == old_ranges.last());
                            }
                        }
                    }
                }
            },
            Found::Invalid => {
                invalid_token(sink, span);
                proof {
                    assert(sink@.skip(s0.len() as int) =~= s1.skip(s0.len() as int).push(
                        invalid_token_diagnostic(span),
                    ));
                    assert(sink@.take(s0.len() as int) =~= s1.take(s0.len() as int));
                    lemma_pushed(s1, invalid_token_diagnostic(span));
                    lemma_continues(s0, s1, sink@);
                    assert forall|j: int| s0.len() <= j < sink@.len() implies exists|sp: Span|
                     #[trigger] sink@[j] == invalid_token_diagnostic(sp) by {
                        if j < s1.len() {
                            assert(sink@[j] == s1[j]);
                        } else {
                            assert(sink@[j] == invalid_token_diagnostic(span));
                        }
                    }
                }
            },
        }
        pos = end;
        off = end_off;
    }
    proof {
        assert(tokens_laid(chars@, file_id, tokens@, ranges));
        assert(sink@ =~= sink@.take(s0.len() as int) + sink@.skip(s0.len() as int));
    }
    tokens
}

/// The empty span at the end of the text of these characters.
pub fn end_of_text(chars: &Vec<char>, file_id: usize) -> (span: Span)
    ensures
        span == text_end(chars@, file_id),
{
    let end = if chars.len() > usize::MAX / 4 {
        0
    } else {
        offset_to(chars, 0, 0, chars.len())
    };
    Span { file_id, start: end, end }
}

/// Turns the characters of a source text into tokens. Numbers are read
/// with [`NUMBER_PATTERN`], if it compiles. The tokens and the reports
/// are those of [`lex_spec`].
pub fn lex_chars(chars: &Vec<char>, file_id: usize, sink: &mut Diagnostics) -> (tokens: Vec<
    SpannedRaw<Token>,
>)
    ensures
        exists|there: bool|
            scanned(
                #[trigger] lex_spec(chars@, file_id, there),
                tokens@,
                old(sink)@,
                final(sink)@,
            ),
        short_enough(chars@) ==> only_invalid_tokens(final(sink)@, old(sink)@) && exists|
            ranges: Seq<(int, int)>,
        |
            tokens_laid(chars@, file_id, tokens@, ranges),
        continues(final(sink)@, old(sink)@),
{
    if chars.len() > usize::MAX / 4 {
        let mut labels: Vec<Label> = Vec::new();
        labels.push(Label::primary(Span { file_id, start: 0, end: 0 }, String::new()));
        let d = Diagnostic {
            severity: Severity::Error,
            message: String::from_str("source text is too long"),
            labels,
            notes: Vec::new(),
        };
        proof {
            assert(d@.labels =~= too_long_diagnostic(file_id).labels);
            assert(d@.notes =~= too_long_diagnostic(file_id).notes);
            lemma_pushed(old(sink)@, too_long_diagnostic(file_id));
        }
        sink.push(d);
        let tokens: Vec<SpannedRaw<Token>> = Vec::new();
        proof {
            assert(tokens_view(tokens@) =~= Seq::empty());
            assert(sink@ =~= old(sink)@ + seq![too_long_diagnostic(file_id)]);
            assert(scanned(lex_spec(chars@, file_id, true), tokens@, old(sink)@, sink@));
        }
        return tokens;
    }
    let re = match regex_new(NUMBER_PATTERN) {
        Ok(r) => Some(r),
        Err(_) => None,
    };
    let tokens = lex_with(chars, file_id, &re, sink);
    proof {
        assert(pattern_of(re) == number_pattern(re is Some));
        assert(scanned(lex_spec(chars@, file_id, re is Some), tokens@, old(sink)@, sink@));
    }
    tokens
}

/// Turns a source text into tokens. White space and comments are
/// skipped; text that is no token is reported with its span and skipped
/// too. The spans count bytes. The tokens and the reports are those of
/// [`lex_spec`] with the pattern for numbers, or without it should it not
/// compile.
pub fn lex(code: &str, file_id: usize, sink: &mut Diagnostics) -> (tokens: Vec<SpannedRaw<Token>>)
    ensures
        exists|there: bool|
            scanned(
                #[trigger] lex_spec(code@, file_id, there),
                tokens@,
                old(sink)@,
                final(sink)@,
            ),
        short_enough(code@) ==> only_invalid_tokens(final(sink)@, old(sink)@) && exists|
            ranges: Seq<(int, int)>,
        |
            tokens_laid(code@, file_id, tokens@, ranges),
        continues(final(sink)@, old(sink)@),
{
    let chars = chars_of(code);
    lex_chars(&chars, file_id, sink)
}

} // verus!
