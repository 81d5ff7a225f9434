use frontend::checker::check;
use frontend::checker::context::{check_stmt, Context};
use frontend::common::diagnostics::{own_diagnostics, Diagnostics, Severity};
use frontend::common::span::Span;
use frontend::lexer::lex;
use frontend::parser::parse;
use frontend::parser::types::ParserScope;

fn parsed(code: &str) -> ParserScope {
    let mut sink = Diagnostics::new();
    let tokens = lex(code, 0, &mut sink);
    let scope = match parse(&tokens, Span::new(0, code.len(), code.len()), &mut sink) {
        Ok(scope) => scope,
        Err(_) => panic!("does not parse: {:?}", own_diagnostics(&sink)),
    };
    scope
}

fn checked(code: &str) -> Vec<(Severity, String, String)> {
    let scope = parsed(code);
    let mut sink = Diagnostics::new();
    check(&scope, &mut sink);
    own_diagnostics(&sink)
        .into_iter()
        .map(|d| (d.severity, d.message, d.labels[0].message.clone()))
        .collect()
}

fn invalid(what: &str) -> (Severity, String, String) {
    (Severity::Error, format!("invalid {what} statement in top level context"), String::new())
}

fn wrong_case(wanted: &str, found: &str) -> (Severity, String, String) {
    (
        Severity::Warning,
        "wrong case system used".to_string(),
        format!("expected {wanted}, found {found}"),
    )
}

#[test]
fn only_functions_stand_at_top_level() {
    assert_eq!(
        checked("let a = 1; i32 b; c = 2; return 3; yield 4; func f() {}"),
        vec![invalid("create"), invalid("declare"), invalid("set"), invalid("return"), invalid("yield")]
    );
}

#[test]
fn anything_stands_inside_a_function() {
    assert_eq!(
        checked("func f() { let a = 1; i32 b; a = 2; func g() { return a; } yield 4; }"),
        vec![]
    );
}

#[test]
fn a_scope_in_an_expression_keeps_the_context_of_its_statement() {
    assert_eq!(checked("func f() { let a = { let b = 1; yield b; }; }"), vec![]);
}

#[test]
fn names_are_held_to_their_cases() {
    assert_eq!(
        checked("func DoIt<t, U>(i32 Arg, u8 ok, u8) { let camelCase = 1; mut CONST_LIKE = 2; }"),
        vec![
            wrong_case("snake case", "pascal case"),
            wrong_case("pascal case", "snake or camel case"),
            wrong_case("snake case", "pascal case"),
            wrong_case("snake case", "camel case"),
            wrong_case("snake case", "upper snake case"),
        ]
    );
}

#[test]
fn functions_in_a_body_are_checked_too() {
    assert_eq!(checked("func f() { func G() {} }"), vec![wrong_case("snake case", "pascal case")]);
}

#[test]
fn reports_come_in_the_order_of_the_text() {
    let scope = parsed("let X = 3; func F() {}");
    let mut sink = Diagnostics::new();
    check(&scope, &mut sink);
    let spans: Vec<Span> = own_diagnostics(&sink).iter().map(|d| d.labels[0].span).collect();
    assert_eq!(spans, vec![Span::new(0, 0, 10), Span::new(0, 4, 5), Span::new(0, 16, 17)]);
}

#[test]
fn check_stmt_looks_at_one_statement() {
    let scope = parsed("x = 1; func f() {}");
    let mut sink = Diagnostics::new();
    check_stmt(&scope.stmts[0], Context::Func, &mut sink);
    check_stmt(&scope.stmts[1], Context::TopLevel, &mut sink);
    check_stmt(&scope.stmts[1], Context::Func, &mut sink);
    assert_eq!(sink.len(), 0);
    check_stmt(&scope.stmts[0], Context::TopLevel, &mut sink);
    assert_eq!(own_diagnostics(&sink)[0].message, "invalid set statement in top level context");
}
