use frontend::checker::case::Case;
use frontend::checker::context::Context;
use frontend::common::diagnostics::{
    add_diagnostic, add_diagnostics, diagnostics_size, discarded_ident, invalid_case,
    invalid_stmt, nonexistent_item, own_diagnostics, summary, type_mismatch, Diagnostic,
    Diagnostics, Label, LabelStyle, Severity,
};
use frontend::common::expr::Expr;
use frontend::common::ident::Ident;
use frontend::common::span::{Span, Spanned};
use frontend::common::stmt::{Stmt, StmtVariant};
use frontend::lexer::{NumberLiteral, NumberLiteralKind};
use frontend::parser::types::{ParserScope, ParserStmt};
use frontend::resolver::mappings::MapRepr;

fn warning(message: &str) -> Diagnostic {
    Diagnostic {
        severity: Severity::Warning,
        message: message.to_string(),
        labels: vec![],
        notes: vec![],
    }
}

fn error(message: &str) -> Diagnostic {
    Diagnostic { severity: Severity::Error, ..warning(message) }
}

fn one(severity: Severity, message: &str, span: Span, remark: &str) -> Diagnostic {
    Diagnostic {
        severity,
        message: message.to_string(),
        labels: vec![Label { style: LabelStyle::Primary, span, message: remark.to_string() }],
        notes: vec![],
    }
}

fn literal(value: &str) -> Spanned<Expr<ParserScope>> {
    Spanned::new(
        Expr::NumberLiteral(NumberLiteral {
            value: value.to_string(),
            kind: NumberLiteralKind::Decimal,
            ty: None,
        }),
        Span::new(0, 0, 1),
    )
}

#[test]
fn the_list_only_grows_at_its_end() {
    let mut sink = Diagnostics::new();
    assert_eq!(diagnostics_size(&sink), 0);
    assert!(sink.succeeded());
    add_diagnostic(&mut sink, warning("first"));
    add_diagnostic(&mut sink, error("second"));
    let mut more = vec![error("third"), warning("fourth")];
    add_diagnostics(&mut sink, &mut more);
    assert_eq!(more, vec![]);
    assert_eq!(diagnostics_size(&sink), 4);
    assert_eq!(
        own_diagnostics(&sink),
        vec![warning("first"), error("second"), error("third"), warning("fourth")]
    );
    assert_eq!(sink.error_count(), 2);
    assert_eq!(sink.warning_count(), 2);
    assert!(!sink.succeeded());
    assert_eq!(sink.since(3), vec![warning("fourth")]);
    assert_eq!(sink.since(4), vec![]);
}

#[test]
fn warnings_alone_are_a_success() {
    let mut sink = Diagnostics::new();
    add_diagnostic(&mut sink, warning("only"));
    assert!(sink.succeeded());
    assert_eq!(sink.error_count(), 0);
}

#[test]
fn summary_counts_and_uses_the_plural() {
    let mut sink = Diagnostics::new();
    assert_eq!(summary(&sink), "0 diagnostics total (0 warnings, 0 errors)");
    add_diagnostic(&mut sink, warning("w"));
    assert_eq!(summary(&sink), "1 diagnostic total (1 warning, 0 errors)");
    add_diagnostic(&mut sink, error("e"));
    assert_eq!(summary(&sink), "2 diagnostics total (1 warning, 1 error)");
    add_diagnostic(&mut sink, error("e"));
    assert_eq!(summary(&sink), "3 diagnostics total (1 warning, 2 errors)");
}

#[test]
fn type_mismatch_names_both_kinds() {
    let mut sink = Diagnostics::new();
    let span = Span::new(0, 3, 4);
    type_mismatch(&mut sink, span, MapRepr::Var, MapRepr::Type);
    type_mismatch(&mut sink, span, MapRepr::Func, MapRepr::Var);
    assert_eq!(
        own_diagnostics(&sink),
        vec![
            one(Severity::Error, "type mismatch", span, "used variable as type"),
            one(Severity::Error, "type mismatch", span, "used function as variable"),
        ]
    );
}

#[test]
fn nonexistent_item_names_the_item() {
    let mut sink = Diagnostics::new();
    let span = Span::new(0, 3, 4);
    nonexistent_item(&mut sink, span, &Ident::Named("y".to_string()));
    assert_eq!(
        own_diagnostics(&sink),
        vec![one(
            Severity::Error,
            "referenced nonexistent item",
            span,
            "'y' is not defined in the current scope"
        )]
    );
}

#[test]
fn discarded_ident_asks_for_a_value() {
    let mut sink = Diagnostics::new();
    let span = Span::new(0, 3, 4);
    discarded_ident(&mut sink, span);
    assert_eq!(
        own_diagnostics(&sink),
        vec![one(
            Severity::Error,
            "referenced discarded item where value is required",
            span,
            "the operation you are trying to perform requires a value, but you passed in a discarded item"
        )]
    );
}

#[test]
fn invalid_stmt_names_statement_and_context() {
    let mut sink = Diagnostics::new();
    let span = Span::new(0, 0, 9);
    let stmt: Spanned<ParserStmt> =
        Spanned::new(Stmt::Return { value: literal("1"), is_yield: true }, span);
    invalid_stmt(&mut sink, &stmt, Context::TopLevel);
    assert_eq!(
        own_diagnostics(&sink),
        vec![one(Severity::Error, "invalid yield statement in top level context", span, "")]
    );
}

#[test]
fn invalid_case_names_both_cases() {
    let mut sink = Diagnostics::new();
    let span = Span::new(0, 3, 4);
    invalid_case(&mut sink, span, Case::PascalCase, Case::CamelCase);
    assert_eq!(
        own_diagnostics(&sink),
        vec![one(
            Severity::Warning,
            "wrong case system used",
            span,
            "expected pascal case, found camel case"
        )]
    );
}

#[test]
fn statements_have_kinds_with_names() {
    let span = Span::new(0, 0, 1);
    let declare: ParserStmt = Stmt::Create {
        ty_id: Spanned::new(Ident::Named("x".to_string()), span).infer_type(),
        mutable: false,
        value: None,
    };
    let create: ParserStmt = Stmt::Create {
        ty_id: Spanned::new(Ident::Named("x".to_string()), span).infer_type(),
        mutable: false,
        value: Some(literal("1")),
    };
    let assign: ParserStmt =
        Stmt::Assign { id: Spanned::new(Ident::Named("x".to_string()), span), value: literal("1") };
    let ret: ParserStmt = Stmt::Return { value: literal("1"), is_yield: false };
    assert_eq!(declare.variant(), StmtVariant::Declare);
    assert_eq!(create.variant(), StmtVariant::Create);
    assert_eq!(assign.variant(), StmtVariant::Assign);
    assert_eq!(ret.variant(), StmtVariant::Return);
    assert_eq!(declare.variant().text(), "declare");
    assert_eq!(create.variant().text(), "create");
    assert_eq!(assign.variant().text(), "set");
    assert_eq!(ret.variant().text(), "return");
    assert_eq!(StmtVariant::Function.text(), "function");
    assert_eq!(StmtVariant::Yield.text(), "yield");
    assert_eq!(Context::TopLevel.to_string(), "top level");
    assert_eq!(Context::Func.to_string(), "function");
    assert_eq!(MapRepr::Var.to_string(), "variable");
    assert_eq!(MapRepr::Func.to_string(), "function");
    assert_eq!(MapRepr::Type.to_string(), "type");
}
