//! Errors and warnings, and the list every stage appends them to.

use crate::checker::case::Case;
use crate::checker::context::Context;
use crate::common::ident::{ident_text, Ident};
use crate::common::span::{Span, Spanned};
use crate::common::stmt::{Stmt, StmtVariant};
use crate::common::text::texts;
use crate::resolver::mappings::MapRepr;
use vstd::prelude::*;
use vstd::string::StringExecFns;

verus! {

/// How bad a diagnostic is.
#[derive(Debug, Clone, Copy, PartialEq, Eq, Hash, Structural)]
pub enum Severity {
    Error,
    Warning,
}

/// Whether a label marks the place of the fault or a place that explains it.
#[derive(Debug, Clone, Copy, PartialEq, Eq, Hash, Structural)]
pub enum LabelStyle {
    Primary,
    Secondary,
}

/// A span of source text with a remark on it.
#[derive(Debug, PartialEq, Eq)]
pub struct Label {
    pub style: LabelStyle,
    pub span: Span,
    /// The remark; empty for none.
    pub message: String,
}

/// What a [`Label`] stands for in specifications.
pub ghost struct LabelView {
    pub style: LabelStyle,
    pub span: Span,
    pub message: Seq<char>,
}

impl View for Label {
    type V = LabelView;

    open spec fn view(&self) -> LabelView {
        LabelView { style: self.style, span: self.span, message: self.message@ }
    }
}

impl Clone for Label {
    fn clone(&self) -> (res: Self)
        ensures
            res@ == self@,
    {
        Label { style: self.style, span: self.span, message: self.message.clone() }
    }
}

impl Label {
    /// Whether two labels say the same.
    pub fn same(&self, other: &Label) -> (b: bool)
        ensures
            b == (self@ == other@),
    {
        self.style == other.style && self.span == other.span && self.message == other.message
    }

    /// A label at the place of the fault.
    pub fn primary(span: Span, message: String) -> (label: Label)
        ensures
            label@ == primary_label(span, message@),
    {
        Label { style: LabelStyle::Primary, span, message }
    }

    /// A label at a place that explains the fault.
    pub fn secondary(span: Span, message: String) -> (label: Label)
        ensures
            label@ == secondary_label(span, message@),
    {
        Label { style: LabelStyle::Secondary, span, message }
    }
}

/// One error or warning.
#[derive(Debug, PartialEq, Eq)]
pub struct Diagnostic {
    pub severity: Severity,
    pub message: String,
    pub labels: Vec<Label>,
    pub notes: Vec<String>,
}

/// What a [`Diagnostic`] stands for in specifications.
pub ghost struct DiagnosticView {
    pub severity: Severity,
    pub message: Seq<char>,
    pub labels: Seq<LabelView>,
    pub notes: Seq<Seq<char>>,
}

/// The views of the labels of `v`.
pub open spec fn labels_view(v: Seq<Label>) -> Seq<LabelView> {
    Seq::new(v.len(), |i: int| v[i]@)
}

impl View for Diagnostic {
    type V = DiagnosticView;

    open spec fn view(&self) -> DiagnosticView {
        DiagnosticView {
            severity: self.severity,
            message: self.message@,
            labels: labels_view(self.labels@),
            notes: texts(self.notes@),
        }
    }
}

impl Clone for Diagnostic {
    fn clone(&self) -> (res: Self)
        ensures
            res@ == self@,
    {
        let mut labels: Vec<Label> = Vec::new();
        let mut i: usize = 0;
        while i < self.labels.len()
            invariant
                i <= self.labels.len(),
                labels.len() == i,
                forall|j: int| 0 <= j < i ==> labels[j]@ == self.labels[j]@,
            decreases self.labels.len() - i,
        {
            labels.push(self.labels[i].clone());
            i += 1;
        }
        let mut notes: Vec<String> = Vec::new();
        let mut k: usize = 0;
        while k < self.notes.len()
            invariant
                k <= self.notes.len(),
                notes.len() == k,
                forall|j: int| 0 <= j < k ==> notes[j]@ == self.notes[j]@,
            decreases self.notes.len() - k,
        {
            notes.push(self.notes[k].clone());
            k += 1;
        }
        let res = Diagnostic { severity: self.severity, message: self.message.clone(), labels, notes };
        assert(res@.labels =~= self@.labels);
        assert(res@.notes =~= self@.notes);
        res
    }
}

impl Diagnostic {
    /// Whether two diagnostics say the same.
    pub fn same(&self, other: &Diagnostic) -> (b: bool)
        ensures
            b == (self@ == other@),
    {
        if !(self.severity == other.severity && self.message == other.message) {
            return false;
        }
        if self.labels.len() != other.labels.len() {
            assert(self@.labels.len() != other@.labels.len());
            return false;
        }
        if self.notes.len() != other.notes.len() {
            assert(self@.notes.len() != other@.notes.len());
            return false;
        }
        let mut i: usize = 0;
        while i < self.labels.len()
            invariant
                i <= self.labels.len(),
                self.labels.len() == other.labels.len(),
                forall|j: int| 0 <= j < i ==> self.labels[j]@ == other.labels[j]@,
            decreases self.labels.len() - i,
        {
            if !self.labels[i].same(&other.labels[i]) {
                assert(self@.labels[i as int] != other@.labels[i as int]);
                return false;
            }
            i += 1;
        }
        let mut k: usize = 0;
        while k < self.notes.len()
            invariant
                k <= self.notes.len(),
                self.notes.len() == other.notes.len(),
                forall|j: int| 0 <= j < k ==> self.notes[j]@ == other.notes[j]@,
            decreases self.notes.len() - k,
        {
            if self.notes[k] != other.notes[k] {
                assert(self@.notes[k as int] != other@.notes[k as int]);
                return false;
            }
            k += 1;
        }
        assert(self@.labels =~= other@.labels);
        assert(self@.notes =~= other@.notes);
        true
    }
}

/// A label at the place of the fault.
pub open spec fn primary_label(span: Span, message: Seq<char>) -> LabelView {
    LabelView { style: LabelStyle::Primary, span, message }
}

/// A label at a place that explains the fault.
pub open spec fn secondary_label(span: Span, message: Seq<char>) -> LabelView {
    LabelView { style: LabelStyle::Secondary, span, message }
}

/// The views of the diagnostics of `v`.
pub open spec fn diagnostics_view(v: Seq<Diagnostic>) -> Seq<DiagnosticView> {
    Seq::new(v.len(), |i: int| v[i]@)
}

/// How many of `s` are errors.
pub open spec fn count_errors(s: Seq<DiagnosticView>) -> nat
    decreases s.len(),
{
    if s.len() == 0 {
        0
    } else {
        count_errors(s.drop_last()) + if s.last().severity == Severity::Error {
            1nat
        } else {
            0nat
        }
    }
}

/// There are no more errors than diagnostics.
pub proof fn lemma_count_errors_bound(s: Seq<DiagnosticView>)
    ensures
        count_errors(s) <= s.len(),
    decreases s.len(),
{
    if s.len() > 0 {
        lemma_count_errors_bound(s.drop_last());
    }
}

/// The word `word`, with an `s` unless `n` is one.
pub open spec fn plural(word: Seq<char>, n: nat) -> Seq<char> {
    if n == 1 {
        word
    } else {
        word + "s"@
    }
}

/// The line that sums up a compilation: how many diagnostics there are,
/// and how many of them are warnings and errors.
pub open spec fn summary_text(total: nat, warnings: nat) -> Seq<char> {
    crate::common::text::decimal_text(total) + " "@ + plural("diagnostic"@, total) + " total ("@
        + crate::common::text::decimal_text(warnings) + " "@ + plural("warning"@, warnings) + ", "@
        + crate::common::text::decimal_text((total - warnings) as nat) + " "@ + plural(
        "error"@,
        (total - warnings) as nat,
    ) + ")"@
}

/// The list of diagnostics of one compilation. Stages only ever append to
/// it.
#[derive(Debug, PartialEq, Eq)]
pub struct Diagnostics {
    items: Vec<Diagnostic>,
}

impl View for Diagnostics {
    type V = Seq<DiagnosticView>;

    closed spec fn view(&self) -> Seq<DiagnosticView> {
        diagnostics_view(self.items@)
    }
}

impl Diagnostics {
    /// An empty list.
    pub fn new() -> (sink: Diagnostics)
        ensures
            sink@ == Seq::<DiagnosticView>::empty(),
    {
        let sink = Diagnostics { items: Vec::new() };
        assert(sink@ =~= Seq::<DiagnosticView>::empty());
        sink
    }

    /// Appends one diagnostic.
    pub fn push(&mut self, diagnostic: Diagnostic)
        ensures
            final(self)@ == old(self)@.push(diagnostic@),
    {
        self.items.push(diagnostic);
        assert(self@ =~= old(self)@.push(diagnostic@));
    }

    /// The number of diagnostics.
    pub fn len(&self) -> (n: usize)
        ensures
            n == self@.len(),
    {
        self.items.len()
    }

    /// The diagnostics, oldest first.
    pub fn items(&self) -> (items: &Vec<Diagnostic>)
        ensures
            diagnostics_view(items@) == self@,
    {
        &self.items
    }

    /// The number of diagnostics that are errors.
    pub fn error_count(&self) -> (n: usize)
        ensures
            n == count_errors(self@),
    {
        let mut n: usize = 0;
        let mut i: usize = 0;
        assert(self@.take(0) =~= Seq::<DiagnosticView>::empty());
        while i < self.items.len()
            invariant
                i <= self.items.len(),
                self@.len() == self.items.len(),
                n == count_errors(self@.take(i as int)),
                n <= i,
            decreases self.items.len() - i,
        {
            proof {
                let next = self@.take(i + 1);
                assert(next.drop_last() =~= self@.take(i as int));
                assert(next.last() == self.items[i as int]@);
            }
            match self.items[i].severity {
                Severity::Error => {
                    n += 1;
                },
                Severity::Warning => {},
            }
            i += 1;
        }
        assert(self@.take(i as int) =~= self@);
        n
    }

    /// A copy of the diagnostics from index `from` on.
    pub fn since(&self, from: usize) -> (copy: Vec<Diagnostic>)
        requires
            from <= self@.len(),
        ensures
            diagnostics_view(copy@) == self@.subrange(from as int, self@.len() as int),
    {
        let mut copy: Vec<Diagnostic> = Vec::new();
        let mut i: usize = from;
        while i < self.items.len()
            invariant
                from <= i <= self.items.len(),
                self@.len() == self.items.len(),
                copy.len() == i - from,
                forall|j: int| 0 <= j < copy.len() ==> (#[trigger] copy[j])@ == self.items[from + j]@,
            decreases self.items.len() - i,
        {
            copy.push(self.items[i].clone());
            i += 1;
        }
        assert(diagnostics_view(copy@) =~= self@.subrange(from as int, self@.len() as int));
        copy
    }

    /// The number of diagnostics that are warnings.
    pub fn warning_count(&self) -> (n: usize)
        ensures
            n == self@.len() - count_errors(self@),
    {
        let errors = self.error_count();
        proof {
            lemma_count_errors_bound(self@);
        }
        self.items.len() - errors
    }

    /// Whether no diagnostic is an error: the front-end succeeded.
    pub fn succeeded(&self) -> (ok: bool)
        ensures
            ok == (count_errors(self@) == 0),
    {
        self.error_count() == 0
    }
}

/// Appends one diagnostic to the list.
pub fn add_diagnostic(sink: &mut Diagnostics, diagnostic: Diagnostic)
    ensures
        final(sink)@ == old(sink)@.push(diagnostic@),
{
    sink.push(diagnostic);
}

/// Moves the diagnostics of `diagnostics` to the end of the list, in their
/// order, and leaves `diagnostics` empty.
pub fn add_diagnostics(sink: &mut Diagnostics, diagnostics: &mut Vec<Diagnostic>)
    ensures
        final(sink)@ == old(sink)@ + diagnostics_view(old(diagnostics)@),
        final(diagnostics)@.len() == 0,
{
    let ghost before = sink@;
    let ghost added = diagnostics_view(diagnostics@);
    sink.items.append(diagnostics);
    assert(sink@ =~= before + added);
}

/// The number of diagnostics in the list.
pub fn diagnostics_size(sink: &Diagnostics) -> (n: usize)
    ensures
        n == sink@.len(),
{
    sink.len()
}

/// A copy of the diagnostics in the list, oldest first.
pub fn own_diagnostics(sink: &Diagnostics) -> (copy: Vec<Diagnostic>)
    ensures
        diagnostics_view(copy@) == sink@,
{
    let mut copy: Vec<Diagnostic> = Vec::new();
    let mut i: usize = 0;
    while i < sink.items.len()
        invariant
            i <= sink.items.len(),
            copy.len() == i,
            forall|j: int| 0 <= j < i ==> copy[j]@ == sink.items[j]@,
        decreases sink.items.len() - i,
    {
        copy.push(sink.items[i].clone());
        i += 1;
    }
    assert(diagnostics_view(copy@) =~= sink@);
    copy
}

/// The error for a name used as another kind of thing than it was declared.
pub open spec fn type_mismatch_diagnostic(span: Span, used: MapRepr, desired: MapRepr)
    -> DiagnosticView {
    DiagnosticView {
        severity: Severity::Error,
        message: "type mismatch"@,
        labels: seq![
            primary_label(span, "used "@ + used.text_spec() + " as "@ + desired.text_spec()),
        ],
        notes: Seq::empty(),
    }
}

/// The error for a name that nothing in sight declares.
pub open spec fn nonexistent_item_diagnostic(span: Span, ident: Seq<char>) -> DiagnosticView {
    DiagnosticView {
        severity: Severity::Error,
        message: "referenced nonexistent item"@,
        labels: seq![
            primary_label(span, "'"@ + ident + "' is not defined in the current scope"@),
        ],
        notes: Seq::empty(),
    }
}

/// The error for a wildcard where a value is needed.
pub open spec fn discarded_ident_diagnostic(span: Span) -> DiagnosticView {
    DiagnosticView {
        severity: Severity::Error,
        message: "referenced discarded item where value is required"@,
        labels: seq![
            primary_label(
                span,
                "the operation you are trying to perform requires a value, but you passed in a discarded item"@,
            ),
        ],
        notes: Seq::empty(),
    }
}

/// The error for a statement where its kind may not stand.
pub open spec fn invalid_stmt_diagnostic(span: Span, variant: StmtVariant, context: Context)
    -> DiagnosticView {
    DiagnosticView {
        severity: Severity::Error,
        message: "invalid "@ + variant.text_spec() + " statement in "@ + context.text_spec()
            + " context"@,
        labels: seq![primary_label(span, Seq::empty())],
        notes: Seq::empty(),
    }
}

/// The warning for a name in another case than its kind asks for.
pub open spec fn invalid_case_diagnostic(span: Span, wanted: Case, found: Case) -> DiagnosticView {
    DiagnosticView {
        severity: Severity::Warning,
        message: "wrong case system used"@,
        labels: seq![
            primary_label(span, "expected "@ + wanted.text_spec() + ", found "@ + found.text_spec()),
        ],
        notes: Seq::empty(),
    }
}

/// The error for a program with more binding sites or types than there
/// are numbers.
pub open spec fn out_of_ids_diagnostic(span: Span) -> DiagnosticView {
    DiagnosticView {
        severity: Severity::Error,
        message: "ran out of numbers"@,
        labels: seq![primary_label(span, "this item could not be given a number"@)],
        notes: Seq::empty(),
    }
}

/// A diagnostic with one primary label and no notes.
fn one_label(severity: Severity, message: &str, span: Span, remark: String) -> (d: Diagnostic)
    ensures
        d@ == (DiagnosticView {
            severity,
            message: message@,
            labels: seq![primary_label(span, remark@)],
            notes: Seq::empty(),
        }),
{
    let mut labels: Vec<Label> = Vec::new();
    labels.push(Label::primary(span, remark));
    let d = Diagnostic {
        severity,
        message: String::from_str(message),
        labels,
        notes: Vec::new(),
    };
    assert(d@.labels =~= seq![primary_label(span, remark@)]);
    assert(d@.notes =~= Seq::<Seq<char>>::empty());
    d
}

/// Reports a name used as `desired` that was declared as `used`.
pub fn type_mismatch(sink: &mut Diagnostics, span: Span, used: MapRepr, desired: MapRepr)
    ensures
        final(sink)@ == old(sink)@.push(type_mismatch_diagnostic(span, used, desired)),
{
    let mut remark = String::from_str("used ");
    remark.append(used.text());
    remark.append(" as ");
    remark.append(desired.text());
    sink.push(one_label(Severity::Error, "type mismatch", span, remark));
}

/// Reports a name that nothing in sight declares.
pub fn nonexistent_item(sink: &mut Diagnostics, span: Span, ident: &Ident)
    ensures
        final(sink)@ == old(sink)@.push(nonexistent_item_diagnostic(span, ident_text(ident@))),
{
    let mut remark = String::from_str("'");
    let name = ident.to_string();
    remark.append(name.as_str());
    remark.append("' is not defined in the current scope");
    sink.push(one_label(Severity::Error, "referenced nonexistent item", span, remark));
}

/// Reports a wildcard where a value is needed.
pub fn discarded_ident(sink: &mut Diagnostics, span: Span)
    ensures
        final(sink)@ == old(sink)@.push(discarded_ident_diagnostic(span)),
{
    let remark = String::from_str(
        "the operation you are trying to perform requires a value, but you passed in a discarded item",
    );
    sink.push(
        one_label(
            Severity::Error,
            "referenced discarded item where value is required",
            span,
            remark,
        ),
    );
}

/// Reports a statement that may not stand in `context`.
pub fn invalid_stmt<T>(sink: &mut Diagnostics, stmt: &Spanned<Stmt<T>>, context: Context)
    ensures
        final(sink)@ == old(sink)@.push(
            invalid_stmt_diagnostic(stmt.span, stmt.value.variant_spec(), context),
        ),
{
    let mut message = String::from_str("invalid ");
    message.append(stmt.value.variant().text());
    message.append(" statement in ");
    message.append(context.text());
    message.append(" context");
    sink.push(one_label(Severity::Error, message.as_str(), stmt.span, String::new()));
}

/// Warns of a name written in the case `found` where `wanted` is asked for.
pub fn invalid_case(sink: &mut Diagnostics, span: Span, wanted: Case, found: Case)
    ensures
        final(sink)@ == old(sink)@.push(invalid_case_diagnostic(span, wanted, found)),
{
    let mut remark = String::from_str("expected ");
    remark.append(wanted.text());
    remark.append(", found ");
    remark.append(found.text());
    sink.push(one_label(Severity::Warning, "wrong case system used", span, remark));
}

/// Reports an item that could not be given a number, because none is
/// left.
pub fn out_of_ids(sink: &mut Diagnostics, span: Span)
    ensures
        final(sink)@ == old(sink)@.push(out_of_ids_diagnostic(span)),
{
    let remark = String::from_str("this item could not be given a number");
    sink.push(one_label(Severity::Error, "ran out of numbers", span, remark));
}

/// Whether `later` begins with `earlier`: a list of diagnostics only ever
/// grows at its end.
pub open spec fn continues(later: Seq<DiagnosticView>, earlier: Seq<DiagnosticView>) -> bool {
    earlier.len() <= later.len() && later.take(earlier.len() as int) == earlier
}

/// What was appended in steps was appended; and where nothing was
/// appended in all, nothing was in any step.
pub proof fn lemma_continues(s0: Seq<DiagnosticView>, s1: Seq<DiagnosticView>, s2: Seq<DiagnosticView>)
    requires
        continues(s1, s0),
        continues(s2, s1),
    ensures
        continues(s2, s0),
        s2 == s0 ==> s1 == s0 && s2 == s1,
        continues(s0, s0),
{
    assert(s2.take(s0.len() as int) =~= s1.take(s0.len() as int));
    assert(s0.take(s0.len() as int) =~= s0);
    if s2 == s0 {
        assert(s1.take(s1.len() as int) =~= s1);
    }
}

/// Every list continues itself.
pub proof fn lemma_continues_self(s: Seq<DiagnosticView>)
    ensures
        continues(s, s),
{
    assert(s.take(s.len() as int) =~= s);
}

/// A list with one more at its end continues the list, and is another
/// list.
pub proof fn lemma_pushed(s: Seq<DiagnosticView>, d: DiagnosticView)
    ensures
        continues(s.push(d), s),
        s.push(d) != s,
{
    assert(s.push(d).take(s.len() as int) =~= s);
    assert(s.push(d).len() != s.len());
}

/// A list with more at its end continues the list.
pub proof fn lemma_appended(s0: Seq<DiagnosticView>, more: Seq<DiagnosticView>)
    ensures
        continues(s0 + more, s0),
        s0 + more == s0 <==> more.len() == 0,
        continues(s0.push(more.last()), s0),
{
    assert((s0 + more).take(s0.len() as int) =~= s0);
    assert(s0.push(more.last()).take(s0.len() as int) =~= s0);
    if more.len() == 0 {
        assert(s0 + more =~= s0);
    }
}

/// Appends a number and a word in the singular or plural to `line`.
fn append_counted(line: &mut String, n: usize, word: &str)
    ensures
        final(line)@ == old(line)@ + crate::common::text::decimal_text(n as nat) + " "@ + plural(
            word@,
            n as nat,
        ),
{
    let digits = crate::common::text::decimal(n);
    line.append(digits.as_str());
    line.append(" ");
    line.append(word);
    if n != 1 {
        line.append("s");
    }
}

/// The line that sums up a compilation, such as
/// `3 diagnostics total (1 warning, 2 errors)`.
pub fn summary(sink: &Diagnostics) -> (line: String)
    ensures
        line@ == summary_text(sink@.len(), (sink@.len() - count_errors(sink@)) as nat),
{
    let total = sink.len();
    let warnings = sink.warning_count();
    let mut line = String::new();
    append_counted(&mut line, total, "diagnostic");
    line.append(" total (");
    append_counted(&mut line, warnings, "warning");
    line.append(", ");
    append_counted(&mut line, total - warnings, "error");
    line.append(")");
    assert(line@ =~= summary_text(total as nat, warnings as nat));
    line
}

} // verus!
