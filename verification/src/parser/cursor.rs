//! Reading the token list: looking ahead, spans of token ranges, and the
//! reports of what does not fit.

use crate::common::diagnostics::{
    continues, lemma_continues_self, lemma_pushed, primary_label, secondary_label, Diagnostic,
    Diagnostics, DiagnosticView, Label, Severity,
};
use crate::common::join::Join;
use crate::common::span::{Span, SpannedRaw};
use crate::common::text::{joined, str_eq, texts};
use crate::lexer::{AssignmentOp, Keyword, Operator, Punctuation, Token};
use vstd::prelude::*;
use vstd::string::StringExecFns;

verus! {

/// The tokens of one source text, in order.
pub type Tokens = Vec<SpannedRaw<Token>>;

/// Where the token with index `i` begins; past the last token, where the
/// source text ends.
pub open spec fn start_at(tokens: Seq<SpannedRaw<Token>>, eoi: Span, i: int) -> usize {
    if 0 <= i < tokens.len() {
        tokens[i].1.start
    } else {
        eoi.start
    }
}

/// The span of the tokens from index `a` up to, not including, index `b`;
/// of no tokens, the empty span where the token `a` begins.
pub open spec fn range_span(tokens: Seq<SpannedRaw<Token>>, eoi: Span, a: int, b: int) -> Span {
    Span {
        file_id: eoi.file_id,
        start: start_at(tokens, eoi, a),
        end: if a < b && 0 < b <= tokens.len() {
            tokens[b - 1].1.end
        } else {
            start_at(tokens, eoi, a)
        },
    }
}

/// The spans of the tokens are those of one file, none is turned round,
/// and they follow each other up to the end of the source text.
pub open spec fn ordered(tokens: Seq<SpannedRaw<Token>>, eoi: Span) -> bool {
    &&& eoi.start <= eoi.end
    &&& forall|i: int|
        0 <= i < tokens.len() ==> (#[trigger] tokens[i]).1.file_id == eoi.file_id && tokens[i].1.start
            <= tokens[i].1.end && tokens[i].1.end <= eoi.start
    &&& forall|i: int, j: int|
        0 <= i < j < tokens.len() ==> (#[trigger] tokens[i]).1.end <= (#[trigger] tokens[j]).1.start
}

/// The span of a range of tokens lies within the span of a range around
/// it.
pub proof fn lemma_range_within(
    tokens: Seq<SpannedRaw<Token>>,
    eoi: Span,
    a: int,
    b: int,
    c: int,
    d: int,
)
    requires
        ordered(tokens, eoi),
        0 <= a <= c <= d <= b <= tokens.len(),
        c == d ==> c < b || a == b,
    ensures
        range_span(tokens, eoi, c, d).within(range_span(tokens, eoi, a, b)),
        range_span(tokens, eoi, a, b).start <= range_span(tokens, eoi, a, b).end,
{
    if a < b {
        let first = tokens[a];
        let last = tokens[b - 1];
        if a < b - 1 {
            assert(first.1.end <= last.1.start);
        }
        if c < tokens.len() {
            let x = tokens[c];
            if a < c {
                assert(first.1.end <= x.1.start);
            }
            if c < b - 1 {
                assert(x.1.end <= last.1.start);
            }
        }
        if c < d {
            let y = tokens[d - 1];
            if d - 1 < b - 1 {
                assert(y.1.end <= last.1.start);
            }
            if a < d - 1 {
                assert(first.1.end <= y.1.start);
            }
        }
    }
}

/// Whether the spans of the tokens are in order.
pub fn check_ordered(tokens: &Tokens, eoi: Span) -> (ok: bool)
    ensures
        ok == ordered(tokens@, eoi),
{
    if eoi.start > eoi.end {
        return false;
    }
    let mut i: usize = 0;
    while i < tokens.len()
        invariant
            i <= tokens.len(),
            eoi.start <= eoi.end,
            forall|k: int|
                0 <= k < i ==> (#[trigger] tokens[k]).1.file_id == eoi.file_id && tokens[k].1.start
                    <= tokens[k].1.end && tokens[k].1.end <= eoi.start,
            forall|k: int| 0 < k < i ==> tokens[k - 1].1.end <= (#[trigger] tokens[k]).1.start,
        decreases tokens.len() - i,
    {
        let span = tokens[i].1;
        if span.file_id != eoi.file_id || span.start > span.end || span.end > eoi.start {
            return false;
        }
        if i > 0 && tokens[i - 1].1.end > span.start {
            assert(!(tokens[i - 1].1.end <= tokens[i as int].1.start));
            return false;
        }
        i += 1;
    }
    proof {
        assert forall|a: int, b: int| 0 <= a < b < tokens.len() implies (#[trigger] tokens[a]).1.end
            <= (#[trigger] tokens[b]).1.start by {
            lemma_chain(tokens@, a, b);
        }
    }
    true
}

/// Spans that follow each other one by one follow each other at any
/// distance.
proof fn lemma_chain(tokens: Seq<SpannedRaw<Token>>, a: int, b: int)
    requires
        0 <= a < b < tokens.len(),
        forall|k: int| 0 <= k < tokens.len() ==> (#[trigger] tokens[k]).1.start <= tokens[k].1.end,
        forall|k: int| 0 < k < tokens.len() ==> tokens[k - 1].1.end <= (#[trigger] tokens[k]).1.start,
    ensures
        tokens[a].1.end <= tokens[b].1.start,
    decreases b - a,
{
    if a + 1 < b {
        lemma_chain(tokens, a, b - 1);
        assert(tokens[b - 1].1.start <= tokens[b - 1].1.end);
        assert(tokens[b - 1].1.end <= tokens[b].1.start);
    } else {
        assert(tokens[b - 1].1.end <= tokens[b].1.start);
    }
}

/// The span of the tokens from `a` up to `b`.
pub fn span_between(tokens: &Tokens, eoi: Span, a: usize, b: usize) -> (span: Span)
    requires
        a <= b <= tokens.len(),
    ensures
        span == range_span(tokens@, eoi, a as int, b as int),
{
    let start = if a < tokens.len() {
        tokens[a].1.start
    } else {
        eoi.start
    };
    let end = if a < b {
        tokens[b - 1].1.end
    } else {
        start
    };
    Span { file_id: eoi.file_id, start, end }
}

/// The smallest span of the file of `a` that covers `a` and `b`.
pub open spec fn cover(a: Span, b: Span) -> Span {
    Span {
        file_id: a.file_id,
        start: if b.start < a.start {
            b.start
        } else {
            a.start
        },
        end: if b.end > a.end {
            b.end
        } else {
            a.end
        },
    }
}

/// The smallest span of the file of `a` that covers `a` and `b`.
pub fn cover_spans(a: Span, b: Span) -> (span: Span)
    ensures
        span == cover(a, b),
{
    Span {
        file_id: a.file_id,
        start: if b.start < a.start {
            b.start
        } else {
            a.start
        },
        end: if b.end > a.end {
            b.end
        } else {
            a.end
        },
    }
}

/// The keyword that a word is, if it is one.
pub open spec fn keyword_of(word: Seq<char>) -> Option<Keyword> {
    if word == "func"@ {
        Some(Keyword::Function)
    } else if word == "return"@ {
        Some(Keyword::Return)
    } else if word == "yield"@ {
        Some(Keyword::Yield)
    } else if word == seq!['e', 'x', 't', 'e', 'r', 'n'] {
        Some(Keyword::External)
    } else if word == "pure"@ {
        Some(Keyword::Pure)
    } else if word == "unsafe"@ {
        Some(Keyword::Unsafe)
    } else if word == "let"@ {
        Some(Keyword::Let)
    } else if word == "mut"@ {
        Some(Keyword::Mut)
    } else if word == "_"@ {
        Some(Keyword::DontCare)
    } else {
        None
    }
}

/// Whether `word` is the six letters that declare a function as defined
/// elsewhere.
fn is_external_word(word: &str) -> (b: bool)
    ensures
        b == (word@ == seq!['e', 'x', 't', 'e', 'r', 'n']),
{
    let mut spelled = String::new();
    spelled.push('e');
    spelled.push('x');
    spelled.push('t');
    spelled.push('e');
    spelled.push('r');
    spelled.push('n');
    assert(spelled@ =~= seq!['e', 'x', 't', 'e', 'r', 'n']);
    str_eq(word, spelled.as_str())
}

/// The keyword that a word is, if it is one.
pub fn word_keyword(word: &str) -> (res: Option<Keyword>)
    ensures
        res == keyword_of(word@),
{
    if str_eq(word, "func") {
        Some(Keyword::Function)
    } else if str_eq(word, "return") {
        Some(Keyword::Return)
    } else if str_eq(word, "yield") {
        Some(Keyword::Yield)
    } else if is_external_word(word) {
        Some(Keyword::External)
    } else if str_eq(word, "pure") {
        Some(Keyword::Pure)
    } else if str_eq(word, "unsafe") {
        Some(Keyword::Unsafe)
    } else if str_eq(word, "let") {
        Some(Keyword::Let)
    } else if str_eq(word, "mut") {
        Some(Keyword::Mut)
    } else if str_eq(word, "_") {
        Some(Keyword::DontCare)
    } else {
        None
    }
}

impl Token {
    /// The keyword that the token is, if it is one.
    pub open spec fn keyword_spec(self) -> Option<Keyword> {
        match self {
            Token::Identifier(word) => keyword_of(word@),
            _ => None,
        }
    }

    /// The keyword that the token is, if it is one.
    pub fn as_keyword(&self) -> (res: Option<Keyword>)
        ensures
            res == self.keyword_spec(),
    {
        match self {
            Token::Identifier(word) => word_keyword(word.as_str()),
            _ => None,
        }
    }

    /// Whether the token is the keyword `keyword`.
    pub fn is_keyword(&self, keyword: Keyword) -> (b: bool)
        ensures
            b == (self.keyword_spec() == Some(keyword)),
    {
        match self.as_keyword() {
            Some(x) => x == keyword,
            None => false,
        }
    }
}

/// Whether the token with index `pos` is the keyword `keyword`.
pub fn at_keyword(tokens: &Tokens, pos: usize, keyword: Keyword) -> (b: bool)
    ensures
        b ==> pos < tokens.len(),
        b == (pos < tokens.len() && tokens[pos as int].0.keyword_spec() == Some(keyword)),
{
    pos < tokens.len() && tokens[pos].0.is_keyword(keyword)
}

/// Whether the token with index `pos` is the punctuation `p`.
pub fn at_punct(tokens: &Tokens, pos: usize, p: Punctuation) -> (b: bool)
    ensures
        b == (pos < tokens.len() && tokens[pos as int].0 == Token::Punctuation(p)),
{
    if pos < tokens.len() {
        match &tokens[pos].0 {
            Token::Punctuation(q) => *q == p,
            _ => false,
        }
    } else {
        false
    }
}

/// Whether the token with index `pos` is the operator `op`.
pub fn at_op(tokens: &Tokens, pos: usize, op: Operator) -> (b: bool)
    ensures
        b == (pos < tokens.len() && tokens[pos as int].0 == Token::Operator(op)),
{
    if pos < tokens.len() {
        match &tokens[pos].0 {
            Token::Operator(q) => *q == op,
            _ => false,
        }
    } else {
        false
    }
}

/// Whether the token with index `pos` is the assignment sign.
pub fn at_assign(tokens: &Tokens, pos: usize) -> (b: bool)
    ensures
        b == (pos < tokens.len() && tokens[pos as int].0 is AssignmentOp),
{
    if pos < tokens.len() {
        match &tokens[pos].0 {
            Token::AssignmentOp(_) => true,
            _ => false,
        }
    } else {
        false
    }
}

/// Whether the token with index `pos` is a word: an identifier or a
/// keyword.
pub fn at_word(tokens: &Tokens, pos: usize) -> (b: bool)
    ensures
        b == (pos < tokens.len() && tokens[pos as int].0 is Identifier),
{
    if pos < tokens.len() {
        match &tokens[pos].0 {
            Token::Identifier(_) => true,
            _ => false,
        }
    } else {
        false
    }
}

/// The error for a token that the grammar does not allow where it
/// stands, with what it allows there.
pub open spec fn unexpected_diagnostic(span: Span, expected: Seq<Seq<char>>) -> DiagnosticView {
    DiagnosticView {
        severity: Severity::Error,
        message: "unexpected token"@,
        labels: seq![primary_label(span, "this token is invalid"@)],
        notes: seq!["expected one of "@ + joined(expected, ", "@)],
    }
}

/// The error for a delimiter that is not closed.
pub open spec fn unclosed_diagnostic(span: Span, opening: Span, delimiter: Seq<char>)
    -> DiagnosticView {
    DiagnosticView {
        severity: Severity::Error,
        message: "unclosed delimiter "@ + delimiter,
        labels: seq![
            primary_label(span, "invalid delimiter"@),
            secondary_label(opening, "opening delimiter here"@),
        ],
        notes: Seq::empty(),
    }
}

/// The error for what the grammar forbids by a rule of its own.
pub open spec fn custom_diagnostic(span: Span, message: Seq<char>) -> DiagnosticView {
    DiagnosticView {
        severity: Severity::Error,
        message,
        labels: seq![primary_label(span, Seq::empty())],
        notes: Seq::empty(),
    }
}

/// Whether `d` is among the diagnostics of `s` from index `from` on.
pub open spec fn reported_since(s: Seq<DiagnosticView>, from: int, d: DiagnosticView) -> bool {
    exists|j: int| from <= j < s.len() && #[trigger] s[j] == d
}

/// The list after `d` has been reported: unchanged if `d` was reported
/// since `from`, else with `d` at its end.
pub open spec fn with_report(s: Seq<DiagnosticView>, from: int, d: DiagnosticView) -> Seq<
    DiagnosticView,
> {
    if reported_since(s, from, d) {
        s
    } else {
        s.push(d)
    }
}

/// Reporting since `from` is reporting among the diagnostics from `from`
/// on.
pub proof fn lemma_report_since(s: Seq<DiagnosticView>, from: int, d: DiagnosticView)
    requires
        0 <= from <= s.len(),
    ensures
        with_report(s, from, d).skip(from) == with_report(s.skip(from), 0, d),
{
    let t = s.skip(from);
    if reported_since(s, from, d) {
        let j = choose|j: int| from <= j < s.len() && #[trigger] s[j] == d;
        assert(t[j - from] == d);
    }
    if reported_since(t, 0, d) {
        let k = choose|k: int| 0 <= k < t.len() && #[trigger] t[k] == d;
        assert(s[k + from] == d);
    }
    assert(s.push(d).skip(from) =~= t.push(d));
}

/// Appends `d`, unless the same diagnostic was appended since `from`.
pub fn report(sink: &mut Diagnostics, from: usize, d: Diagnostic)
    requires
        from <= old(sink)@.len(),
    ensures
        final(sink)@ == with_report(old(sink)@, from as int, d@),
        final(sink)@.skip(from as int) == with_report(old(sink)@.skip(from as int), 0, d@),
        continues(final(sink)@, old(sink)@),
{
    proof {
        lemma_continues_self(sink@);
        lemma_pushed(sink@, d@);
        lemma_report_since(sink@, from as int, d@);
    }
    let items = sink.items();
    let mut i = from;
    while i < items.len()
        invariant
            from <= i <= items.len(),
            crate::common::diagnostics::diagnostics_view(items@) == sink@,
            sink@ == old(sink)@,
            continues(sink@, sink@),
            forall|j: int| from <= j < i ==> #[trigger] sink@[j] != d@,
        decreases items.len() - i,
    {
        if items[i].same(&d) {
            proof {
                assert(sink@[i as int] == d@);
                lemma_report_since(sink@, from as int, d@);
            }
            return ;
        }
        i += 1;
    }
    sink.push(d);
}

/// Reports a token that the grammar does not allow at `pos`; `expected`
/// names what it allows there.
pub fn unexpected(
    tokens: &Tokens,
    eoi: Span,
    pos: usize,
    expected: Vec<String>,
    from: usize,
    sink: &mut Diagnostics,
)
    requires
        pos <= tokens.len(),
        from <= old(sink)@.len(),
    ensures
        final(sink)@ == with_report(
            old(sink)@,
            from as int,
            unexpected_diagnostic(token_span(tokens@, eoi, pos as int), texts(expected@)),
        ),
        final(sink)@.skip(from as int) == with_report(
            old(sink)@.skip(from as int),
            0,
            unexpected_diagnostic(token_span(tokens@, eoi, pos as int), texts(expected@)),
        ),
        continues(final(sink)@, old(sink)@),
{
    let span = span_at(tokens, eoi, pos);
    let mut note = String::from_str("expected one of ");
    let list = expected.join_comma_or_empty();
    note.append(list.as_str());
    let mut labels: Vec<Label> = Vec::new();
    labels.push(Label::primary(span, String::from_str("this token is invalid")));
    let mut notes: Vec<String> = Vec::new();
    notes.push(note);
    let d = Diagnostic {
        severity: Severity::Error,
        message: String::from_str("unexpected token"),
        labels,
        notes,
    };
    proof {
        let want = unexpected_diagnostic(span, texts(expected@));
        assert(d@.labels =~= want.labels);
        assert(d@.notes =~= want.notes);
    }
    report(sink, from, d);
}

/// The span of the token with index `pos`, or of the end of the source
/// text.
pub open spec fn token_span(tokens: Seq<SpannedRaw<Token>>, eoi: Span, pos: int) -> Span {
    if 0 <= pos < tokens.len() {
        tokens[pos].1
    } else {
        eoi
    }
}

/// The span of the token with index `pos`, or of the end of the source
/// text.
pub fn span_at(tokens: &Tokens, eoi: Span, pos: usize) -> (span: Span)
    ensures
        span == token_span(tokens@, eoi, pos as int),
{
    if pos < tokens.len() {
        tokens[pos].1
    } else {
        eoi
    }
}

/// Reports a delimiter opened at `opening` that is not closed at `pos`.
pub fn unclosed(
    tokens: &Tokens,
    eoi: Span,
    pos: usize,
    opening: Span,
    delimiter: &str,
    from: usize,
    sink: &mut Diagnostics,
)
    requires
        from <= old(sink)@.len(),
    ensures
        final(sink)@ == with_report(
            old(sink)@,
            from as int,
            unclosed_diagnostic(token_span(tokens@, eoi, pos as int), opening, delimiter@),
        ),
        final(sink)@.skip(from as int) == with_report(
            old(sink)@.skip(from as int),
            0,
            unclosed_diagnostic(token_span(tokens@, eoi, pos as int), opening, delimiter@),
        ),
        continues(final(sink)@, old(sink)@),
{
    let span = span_at(tokens, eoi, pos);
    let mut message = String::from_str("unclosed delimiter ");
    message.append(delimiter);
    let mut labels: Vec<Label> = Vec::new();
    labels.push(Label::primary(span, String::from_str("invalid delimiter")));
    labels.push(Label::secondary(opening, String::from_str("opening delimiter here")));
    let d = Diagnostic { severity: Severity::Error, message, labels, notes: Vec::new() };
    proof {
        let want = unclosed_diagnostic(span, opening, delimiter@);
        assert(d@.labels =~= want.labels);
        assert(d@.notes =~= want.notes);
    }
    report(sink, from, d);
}

/// Reports what the grammar forbids by a rule of its own.
pub fn custom(span: Span, message: &str, from: usize, sink: &mut Diagnostics)
    requires
        from <= old(sink)@.len(),
    ensures
        final(sink)@ == with_report(old(sink)@, from as int, custom_diagnostic(span, message@)),
        final(sink)@.skip(from as int) == with_report(
            old(sink)@.skip(from as int),
            0,
            custom_diagnostic(span, message@),
        ),
        continues(final(sink)@, old(sink)@),
{
    let mut labels: Vec<Label> = Vec::new();
    labels.push(Label::primary(span, String::new()));
    let d = Diagnostic {
        severity: Severity::Error,
        message: String::from_str(message),
        labels,
        notes: Vec::new(),
    };
    proof {
        let want = custom_diagnostic(span, message@);
        assert(d@.labels =~= want.labels);
        assert(d@.notes =~= want.notes);
    }
    report(sink, from, d);
}

/// A list of one text.
pub fn one(a: &str) -> (v: Vec<String>)
    ensures
        texts(v@) == seq![a@],
{
    let mut v: Vec<String> = Vec::new();
    v.push(String::from_str(a));
    assert(texts(v@) =~= seq![a@]);
    v
}

/// A list of two texts.
pub fn two(a: &str, b: &str) -> (v: Vec<String>)
    ensures
        texts(v@) == seq![a@, b@],
{
    let mut v: Vec<String> = Vec::new();
    v.push(String::from_str(a));
    v.push(String::from_str(b));
    assert(texts(v@) =~= seq![a@, b@]);
    v
}

} // verus!
