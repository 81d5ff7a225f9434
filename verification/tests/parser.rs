use frontend::common::diagnostics::{own_diagnostics, Diagnostic, Diagnostics, LabelStyle, Severity};
use frontend::common::expr::Expr;
use frontend::common::func::Linkage;
use frontend::common::ident::Ident;
use frontend::common::span::Span;
use frontend::common::stmt::Stmt;
use frontend::common::types::{BuiltIn, Type};
use frontend::lexer::{lex, AssignmentOp, Operator, Token};
use frontend::parser::parse;
use frontend::parser::types::ParserScope;

fn parse_code(code: &str) -> (ParserScope, Vec<Diagnostic>) {
    let mut sink = Diagnostics::new();
    let tokens = lex(code, 0, &mut sink);
    assert_eq!(own_diagnostics(&sink), vec![]);
    let eoi = Span::new(0, code.len(), code.len());
    match parse(&tokens, eoi, &mut sink) {
        Ok(scope) => {
            assert_eq!(own_diagnostics(&sink), vec![]);
            (scope, vec![])
        }
        Err((scope, reported)) => {
            assert_eq!(own_diagnostics(&sink), reported);
            assert!(!reported.is_empty());
            (scope, reported)
        }
    }
}

fn parsed_text(code: &str) -> String {
    let (scope, reported) = parse_code(code);
    assert_eq!(reported, vec![]);
    scope.to_string()
}

fn stmt_texts(code: &str) -> Vec<String> {
    let (scope, reported) = parse_code(code);
    assert_eq!(reported, vec![]);
    scope
        .stmts
        .iter()
        .map(|s| frontend::parser::display::write_stmt(&s.value))
        .collect()
}

#[test]
fn an_empty_text_is_an_empty_program() {
    let (scope, reported) = parse_code("");
    assert_eq!(scope.stmts.len(), 0);
    assert_eq!(reported, vec![]);
    assert_eq!(scope.to_string(), "{\n}");
}

#[test]
fn a_function_with_a_body() {
    assert_eq!(
        parsed_text("func main() { let x = 1; }"),
        "{\n\tfunc main [ -> _] {\n\t\t_ x = 1\n\t}\n}"
    );
}

#[test]
fn operators_bind_as_in_arithmetic() {
    assert_eq!(stmt_texts("x = 1 + 2 * -3;"), vec!["x = (1 + (2 * (-3)))"]);
    assert_eq!(stmt_texts("x = 1 - 2 - 3;"), vec!["x = ((1 - 2) - 3)"]);
    assert_eq!(stmt_texts("x = 8 / 4 / 2 * 3;"), vec!["x = (((8 / 4) / 2) * 3)"]);
    assert_eq!(stmt_texts("x = (1 + 2) * 3;"), vec!["x = ((1 + 2) * 3)"]);
    assert_eq!(stmt_texts("x = --a;"), vec!["x = (-(-a))"]);
    assert_eq!(stmt_texts("x = -f(1) + 2;"), vec!["x = ((-(f)(1)) + 2)"]);
}

#[test]
fn calls_with_generics_and_arguments() {
    assert_eq!(stmt_texts("x = f<i32, T>(1, g());"), vec!["x = (f)<i32, T>(1, (g))"]);
    assert_eq!(stmt_texts("x = f(1,)(2);"), vec!["x = ((f)(1))(2)"]);
    assert_eq!(stmt_texts("x = f<_,>();"), vec!["x = (f)<_>"]);
}

#[test]
fn declarations_in_every_form() {
    assert_eq!(
        stmt_texts("let a = 1; mut b = 2; mut i32 c = 3; i32 d; let u8 e = 5; mut f64 g;"),
        vec!["_ a = 1", "mut _ b = 2", "mut i32 c = 3", "i32 d", "u8 e = 5", "mut f64 g"]
    );
    assert_eq!(stmt_texts("Point p = q;;;"), vec!["Point p = q"]);
    assert_eq!(stmt_texts("let _ = 1;"), vec!["_ _ = 1"]);
}

#[test]
fn assignments_and_compound_assignments() {
    assert_eq!(
        stmt_texts("x = 1; x += 2; x -= 3; x *= 4; x /= y + 1;"),
        vec!["x = 1", "x = (x + 2)", "x = (x - 3)", "x = (x * 4)", "x = (x / (y + 1))"]
    );
}

#[test]
fn returns_and_yields() {
    assert_eq!(stmt_texts("return x + 1; yield { yield 2; };"), vec![
        "return (x + 1)",
        "yield {\n\tyield 2\n}",
    ]);
    let (scope, _) = parse_code("yield 1;");
    assert!(matches!(scope.stmts[0].value, Stmt::Return { is_yield: true, .. }));
}

#[test]
fn an_expression_alone_is_declared_as_the_wildcard() {
    let (scope, reported) = parse_code("foo(1);");
    assert_eq!(reported, vec![]);
    match &scope.stmts[0].value {
        Stmt::Create { ty_id, mutable, value } => {
            assert_eq!(ty_id.value.ident.value, Ident::Discarded);
            assert_eq!(ty_id.value.ty.value, Type::Inferred);
            assert!(!*mutable);
            assert!(matches!(value.as_ref().unwrap().value, Expr::Call { .. }));
        }
        other => panic!("parsed as {:?}", other),
    }
}

#[test]
fn functions_in_every_form() {
    assert_eq!(
        stmt_texts("func f(i32 a, u8) -> i32 => a;"),
        vec!["func f [(i32 a, u8 _) -> i32] {\n\treturn a\n}"]
    );
    assert_eq!(
        stmt_texts("extern func printf(i32 fmt) -> void;"),
        vec!["func printf [extern (i32 fmt) -> void];"]
    );
    assert_eq!(
        stmt_texts("func add<T, U,>(T a, U b) pure unsafe { return a + b; };"),
        vec!["func add [<T, U>(T a, U b)pure unsafe  -> _] {\n\treturn (a + b)\n}"]
    );
    assert_eq!(
        stmt_texts("i32 twice(i32 a) { return a * 2; }"),
        vec!["func twice [(i32 a) -> i32] {\n\treturn (a * 2)\n}"]
    );
    assert_eq!(stmt_texts("func f()"), vec!["func f [ -> _];"]);
}

#[test]
fn a_function_records_linkage_and_return_type() {
    let (scope, _) = parse_code("extern func f() -> void; func g() {}");
    match &scope.stmts[0].value {
        Stmt::Func { id, signature, body } => {
            assert_eq!(id.value, Ident::Named("f".to_string()));
            assert_eq!(signature.linkage.value, Linkage::External);
            assert_eq!(signature.return_ty.value, Type::BuiltIn(BuiltIn::Void));
            assert!(body.is_none());
        }
        other => panic!("parsed as {:?}", other),
    }
    match &scope.stmts[1].value {
        Stmt::Func { signature, body, .. } => {
            assert_eq!(signature.linkage.value, Linkage::Default);
            assert_eq!(signature.return_ty.value, Type::Inferred);
            assert_eq!(body.as_ref().unwrap().value.stmts.len(), 0);
        }
        other => panic!("parsed as {:?}", other),
    }
}

#[test]
fn spans_cover_what_was_read() {
    let (scope, _) = parse_code("x = (1 + 2) * f(3);;");
    let stmt = &scope.stmts[0];
    assert_eq!(stmt.span, Span::new(0, 0, 20));
    match &stmt.value {
        Stmt::Assign { id, value } => {
            assert_eq!(id.span, Span::new(0, 0, 1));
            assert_eq!(value.span, Span::new(0, 5, 18));
            match &value.value {
                Expr::BinaryOp(l, op, r) => {
                    assert_eq!(l.span, Span::new(0, 5, 10));
                    assert_eq!(op.span, Span::new(0, 12, 13));
                    assert_eq!(op.value, Operator::Star);
                    assert_eq!(r.span, Span::new(0, 14, 18));
                    match &r.value {
                        Expr::Call { callee, args, .. } => {
                            assert_eq!(callee.span, Span::new(0, 14, 15));
                            assert_eq!(args[0].span, Span::new(0, 16, 17));
                        }
                        other => panic!("parsed as {:?}", other),
                    }
                }
                other => panic!("parsed as {:?}", other),
            }
        }
        other => panic!("parsed as {:?}", other),
    }
}

#[test]
fn spans_of_a_function() {
    let (scope, _) = parse_code("extern func f<T>(T a) pure -> T => a;");
    let stmt = &scope.stmts[0];
    assert_eq!(stmt.span, Span::new(0, 0, 37));
    match &stmt.value {
        Stmt::Func { id, signature, body } => {
            assert_eq!(id.span, Span::new(0, 12, 13));
            assert_eq!(signature.linkage.span, Span::new(0, 0, 6));
            assert_eq!(signature.generics.span, Span::new(0, 13, 16));
            assert_eq!(signature.generics.value[0].span, Span::new(0, 14, 15));
            assert_eq!(signature.args.span, Span::new(0, 16, 21));
            assert_eq!(signature.args.value[0].span, Span::new(0, 17, 20));
            assert_eq!(signature.attribs.span, Span::new(0, 22, 26));
            assert!(signature.attribs.value.is_pure);
            assert!(!signature.attribs.value.is_unsafe);
            assert_eq!(signature.return_ty.span, Span::new(0, 30, 31));
            let body = body.as_ref().unwrap();
            assert_eq!(body.span, Span::new(0, 32, 37));
            assert_eq!(body.value.stmts[0].span, Span::new(0, 32, 37));
        }
        other => panic!("parsed as {:?}", other),
    }
}

#[test]
fn a_statement_that_does_not_parse_is_skipped() {
    let (scope, reported) = parse_code("let = 5; let y = 2;");
    assert_eq!(scope.stmts.len(), 1);
    assert_eq!(frontend::parser::display::write_stmt(&scope.stmts[0].value), "_ y = 2");
    assert_eq!(reported.len(), 1);
    assert_eq!(reported[0].severity, Severity::Error);
    assert_eq!(reported[0].message, "unexpected token");
    assert_eq!(reported[0].labels.len(), 1);
    assert_eq!(reported[0].labels[0].message, "this token is invalid");
    assert_eq!(reported[0].labels[0].span, Span::new(0, 4, 5));
    assert_eq!(reported[0].notes, vec!["expected one of an identifier".to_string()]);
}

#[test]
fn errors_inside_braces_stay_inside() {
    let (scope, reported) = parse_code("func f() { x = ; y = 2; } func g() {}");
    assert_eq!(reported.len(), 1);
    assert_eq!(reported[0].labels[0].span, Span::new(0, 15, 16));
    assert_eq!(scope.stmts.len(), 2);
    match &scope.stmts[0].value {
        Stmt::Func { body, .. } => assert_eq!(body.as_ref().unwrap().value.stmts.len(), 1),
        other => panic!("parsed as {:?}", other),
    }
}

#[test]
fn the_end_of_the_text_is_reported_at_its_span() {
    let (scope, reported) = parse_code("x = ");
    assert_eq!(scope.stmts.len(), 0);
    assert_eq!(reported.len(), 1);
    assert_eq!(reported[0].message, "unexpected token");
    assert_eq!(reported[0].labels[0].span, Span::new(0, 4, 4));
    assert_eq!(reported[0].notes, vec!["expected one of an expression".to_string()]);
}

#[test]
fn a_missing_semicolon_is_reported() {
    let (_, reported) = parse_code("x = 1 y = 2;");
    assert_eq!(reported.len(), 1);
    assert_eq!(reported[0].notes, vec!["expected one of ';'".to_string()]);
    assert_eq!(reported[0].labels[0].span, Span::new(0, 6, 7));
}

#[test]
fn an_unclosed_delimiter_labels_both_sites() {
    let (_, reported) = parse_code("x = (1 + 2;");
    assert_eq!(reported.len(), 1);
    assert_eq!(reported[0].message, "unclosed delimiter (");
    assert_eq!(reported[0].labels.len(), 2);
    assert_eq!(reported[0].labels[0].style, LabelStyle::Primary);
    assert_eq!(reported[0].labels[0].span, Span::new(0, 10, 11));
    assert_eq!(reported[0].labels[0].message, "invalid delimiter");
    assert_eq!(reported[0].labels[1].style, LabelStyle::Secondary);
    assert_eq!(reported[0].labels[1].span, Span::new(0, 4, 5));
    assert_eq!(reported[0].labels[1].message, "opening delimiter here");
    let (_, braces) = parse_code("func f() { x = 1;");
    assert_eq!(braces.len(), 1);
    assert_eq!(braces[0].message, "unclosed delimiter {");
    assert_eq!(braces[0].labels[0].span, Span::new(0, 17, 17));
    assert_eq!(braces[0].labels[1].span, Span::new(0, 9, 10));
}

#[test]
fn a_wildcard_where_a_name_is_required() {
    let (scope, reported) = parse_code("func _() {} _ = 1;");
    assert_eq!(scope.stmts.len(), 2);
    assert_eq!(reported.len(), 2);
    for (d, span) in reported.iter().zip([Span::new(0, 5, 6), Span::new(0, 12, 13)]) {
        assert_eq!(d.message, "discarded ident was used where it is disallowed");
        assert_eq!(d.labels[0].span, span);
        assert_eq!(d.labels[0].message, "");
    }
}

#[test]
fn an_attribute_twice_is_reported_once() {
    let (scope, reported) = parse_code("func f() pure pure pure unsafe {}");
    assert_eq!(scope.stmts.len(), 1);
    assert_eq!(reported.len(), 1);
    assert_eq!(reported[0].message, "cannot apply attribute twice");
    assert_eq!(reported[0].labels[0].span, Span::new(0, 9, 30));
}

#[test]
fn a_return_type_twice_is_reported() {
    let (scope, reported) = parse_code("i32 f() -> u8 {}");
    assert_eq!(reported.len(), 1);
    assert_eq!(reported[0].message, "return type given twice");
    match &scope.stmts[0].value {
        Stmt::Func { signature, .. } => assert_eq!(
            signature.return_ty.value,
            Type::BuiltIn(BuiltIn::Integer { bits: Some(8), signed: false })
        ),
        other => panic!("parsed as {:?}", other),
    }
}

#[test]
fn a_stray_brace_at_top_level_is_skipped() {
    let (scope, reported) = parse_code("} let x = 1;");
    assert_eq!(reported.len(), 1);
    assert_eq!(reported[0].labels[0].span, Span::new(0, 0, 1));
    assert_eq!(scope.stmts.len(), 1);
}

#[test]
fn tokens_out_of_order_are_refused() {
    let tokens = vec![
        (Token::Identifier("x".to_string()), Span::new(0, 4, 5)),
        (Token::AssignmentOp(AssignmentOp::Assign), Span::new(0, 2, 3)),
    ];
    let mut sink = Diagnostics::new();
    let result = parse(&tokens, Span::new(0, 9, 9), &mut sink);
    match result {
        Err((scope, reported)) => {
            assert_eq!(scope.stmts.len(), 0);
            assert_eq!(reported.len(), 1);
            assert_eq!(reported[0].message, "token spans are out of order");
            assert_eq!(own_diagnostics(&sink), reported);
        }
        Ok(_) => panic!("parsed tokens out of order"),
    }
}

fn tokens_of(code: &str) -> (Vec<(Token, Span)>, Span) {
    let mut sink = Diagnostics::new();
    let tokens = lex(code, 0, &mut sink);
    assert_eq!(own_diagnostics(&sink), vec![]);
    (tokens, Span::new(0, code.len(), code.len()))
}

#[test]
fn a_type_and_a_name_are_two_words() {
    let (tokens, eoi) = tokens_of("i32 x = 1;");
    let mut sink = Diagnostics::new();
    let (typed, end) = frontend::parser::expr::ty_ident(&tokens, eoi, 0, 0, &mut sink);
    let typed = typed.unwrap();
    assert_eq!(end, 2);
    assert_eq!(typed.span, Span::new(0, 0, 5));
    assert_eq!(
        typed.value.ty.value,
        Type::BuiltIn(BuiltIn::Integer { bits: Some(32), signed: true })
    );
    assert_eq!(typed.value.ty.span, Span::new(0, 0, 3));
    assert_eq!(typed.value.ident.value, Ident::Named("x".to_string()));
    assert_eq!(typed.value.ident.span, Span::new(0, 4, 5));
    assert_eq!(sink.len(), 0);

    let (tokens, eoi) = tokens_of("i32 = 1;");
    let (typed, end) = frontend::parser::expr::ty_ident(&tokens, eoi, 0, 0, &mut sink);
    assert!(typed.is_none());
    assert_eq!(end, 1);
    let reported = own_diagnostics(&sink);
    assert_eq!(reported.len(), 1);
    assert_eq!(reported[0].message, "unexpected token");
    assert_eq!(reported[0].labels[0].span, Span::new(0, 4, 5));
    assert_eq!(reported[0].notes, vec!["expected one of an identifier".to_string()]);
}

#[test]
fn the_wildcard_is_reported_where_a_name_binds() {
    let (tokens, eoi) = tokens_of("i32 _");
    let mut sink = Diagnostics::new();
    let (typed, end) = frontend::parser::expr::ty_ident(&tokens, eoi, 0, 0, &mut sink);
    assert_eq!(typed.unwrap().value.ident.value, Ident::Discarded);
    assert_eq!(end, 2);
    assert_eq!(sink.len(), 0);

    let (typed, end) = frontend::parser::expr::nodiscard(&tokens, eoi, 0, 0, &mut sink);
    assert_eq!(typed.unwrap().value.ident.value, Ident::Discarded);
    assert_eq!(end, 2);
    let reported = own_diagnostics(&sink);
    assert_eq!(reported.len(), 1);
    assert_eq!(reported[0].message, "discarded ident was used where it is disallowed");
    assert_eq!(reported[0].labels[0].span, Span::new(0, 4, 5));

    let (ident, end) = frontend::parser::expr::ident_nodiscard(&tokens, eoi, 1, 0, &mut sink);
    assert_eq!(ident.unwrap().value, Ident::Discarded);
    assert_eq!(end, 2);
    assert_eq!(sink.len(), 1);

    let (ident, end) = frontend::parser::expr::ident_nodiscard(&tokens, eoi, 0, 0, &mut sink);
    assert_eq!(ident.unwrap().value, Ident::Named("i32".to_string()));
    assert_eq!(end, 1);
    assert_eq!(sink.len(), 1);
}

#[test]
fn the_parts_of_a_function_are_read_in_turn() {
    let (tokens, eoi) = tokens_of("extern func f<T>(T a, i32) pure -> void;");
    let mut sink = Diagnostics::new();
    let (head, after) = frontend::parser::stmt::parse_head(&tokens, eoi, 0, 1, 0, &mut sink);
    let head = head.unwrap();
    assert_eq!(head.id.value, Ident::Named("f".to_string()));
    assert_eq!(head.linkage.value, Linkage::External);
    assert!(head.by_func);
    assert_eq!(head.generics.value.len(), 1);
    assert_eq!(head.args.value.len(), 2);
    assert_eq!(head.args.value[1].value.ident.value, Ident::Discarded);
    assert!(head.attribs.value.is_pure);
    assert!(!head.attribs.value.is_unsafe);
    assert_eq!(after, 13);
    let (arrow, cur) = frontend::parser::stmt::parse_arrow(&tokens, eoi, after, 0, &mut sink);
    let arrow = arrow.unwrap();
    assert_eq!(arrow.as_ref().unwrap().value, Type::BuiltIn(BuiltIn::Void));
    assert_eq!(cur, 16);
    let (stmt, end) =
        frontend::parser::stmt::finish_func(&tokens, eoi, 0, after, cur, head, arrow, 0, &mut sink);
    assert_eq!(end, 17);
    assert_eq!(sink.len(), 0);
    match stmt.unwrap().value {
        Stmt::Func { id, signature, body } => {
            assert_eq!(id.value, Ident::Named("f".to_string()));
            assert_eq!(signature.return_ty.value, Type::BuiltIn(BuiltIn::Void));
            assert!(body.is_none());
        }
        _ => panic!("a function was read"),
    }
}
