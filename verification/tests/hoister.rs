use frontend::common::diagnostics::Diagnostics;
use frontend::common::func::Func;
use frontend::common::ident::Ident;
use frontend::common::scope::Scope;
use frontend::common::span::{Span, Spanned};
use frontend::common::stmt::Stmt;
use frontend::common::types::{BuiltIn, Type};
use frontend::hoister::{hoist, position, put, HoistedScope, HoistedScopeData, Var};
use frontend::lexer::lex;
use frontend::parser::parse;

fn hoisted(code: &str) -> HoistedScope {
    let mut sink = Diagnostics::new();
    let tokens = lex(code, 0, &mut sink);
    let parsed = match parse(&tokens, Span::new(0, code.len(), code.len()), &mut sink) {
        Ok(scope) => scope,
        Err(_) => panic!("does not parse"),
    };
    hoist(&parsed)
}

fn name(text: &str) -> Ident {
    Ident::Named(text.to_string())
}

fn i32_ty() -> Type {
    Type::BuiltIn(BuiltIn::Integer { bits: Some(32), signed: true })
}

#[test]
fn functions_leave_the_statements_for_the_table() {
    let scope = hoisted("func a() {} let x = 1; func b() { func c() {} } x = 2;");
    assert_eq!(scope.stmts.len(), 2);
    assert!(matches!(scope.stmts[0].value, Stmt::Create { .. }));
    assert!(matches!(scope.stmts[1].value, Stmt::Assign { .. }));
    assert_eq!(scope.stmts().len(), 2);
    let names: Vec<&Ident> = scope.data.funcs.iter().map(|(key, _)| key).collect();
    assert_eq!(names, vec![&name("a"), &name("b")]);
    let (_, b) = &scope.data.funcs[1];
    assert_eq!(b.span, Span::new(0, 28, 29));
    assert_eq!(b.value.id, Spanned::new(name("b"), Span::new(0, 28, 29)));
    let inner = &b.value.body.as_ref().unwrap().value;
    assert_eq!(inner.stmts.len(), 0);
    assert_eq!(inner.data.funcs.len(), 1);
    assert_eq!(inner.data.funcs[0].0, name("c"));
}

#[test]
fn declarations_stay_and_are_recorded() {
    let scope = hoisted("let x = 1; mut i32 y;");
    assert_eq!(scope.stmts.len(), 2);
    assert_eq!(
        scope.data.vars,
        vec![
            (name("x"), Spanned::new(Var { ty: Type::Inferred, mutable: false }, Span::new(0, 0, 10))),
            (name("y"), Spanned::new(Var { ty: i32_ty(), mutable: true }, Span::new(0, 11, 21))),
        ]
    );
}

#[test]
fn a_later_declaration_takes_the_place_of_an_earlier_one() {
    let scope = hoisted("let x = 1; let y = 2; mut i32 x = 3; func f() {} func f(i32 a) {}");
    assert_eq!(scope.stmts.len(), 3);
    assert_eq!(
        scope.data.vars,
        vec![
            (name("x"), Spanned::new(Var { ty: i32_ty(), mutable: true }, Span::new(0, 22, 36))),
            (name("y"), Spanned::new(Var { ty: Type::Inferred, mutable: false }, Span::new(0, 11, 21))),
        ]
    );
    assert_eq!(scope.data.funcs.len(), 1);
    assert_eq!(scope.data.funcs[0].1.value.signature.args.value.len(), 1);
}

#[test]
fn scopes_in_expressions_are_hoisted_too() {
    let scope = hoisted("let x = { func inner() {} yield 1; };");
    match &scope.stmts[0].value {
        Stmt::Create { value, .. } => match &value.as_ref().unwrap().value {
            frontend::common::expr::Expr::Scope(inner) => {
                assert_eq!(inner.stmts.len(), 1);
                assert_eq!(inner.data.funcs.len(), 1);
            }
            other => panic!("hoisted as {:?}", other),
        },
        other => panic!("hoisted as {:?}", other),
    }
}

#[test]
fn add_var_and_add_func_replace_by_name() {
    let span = Span::new(0, 0, 1);
    let mut scope = HoistedScope::new();
    scope.add_var(name("a"), Spanned::new(Var { ty: Type::Inferred, mutable: false }, span));
    scope.add_var(name("b"), Spanned::new(Var { ty: Type::Inferred, mutable: false }, span));
    scope.add_var(name("a"), Spanned::new(Var { ty: i32_ty(), mutable: true }, span));
    assert_eq!(scope.data.vars.len(), 2);
    assert_eq!(scope.data.vars[0].0, name("a"));
    assert_eq!(scope.data.vars[0].1.value, Var { ty: i32_ty(), mutable: true });
    assert_eq!(position(&scope.data.vars, &name("b")), Some(1));
    assert_eq!(position(&scope.data.vars, &name("c")), None);
    let parsed = hoisted("func f() {} func g() {}");
    for (key, func) in parsed.data.funcs {
        scope.add_func(key, func);
    }
    assert_eq!(scope.data.funcs.len(), 2);
    assert_eq!(position(&scope.data.funcs, &name("g")), Some(1));
}

#[test]
fn put_keeps_one_entry_for_a_name() {
    let mut entries: Vec<(Ident, u8)> = vec![];
    put(&mut entries, name("a"), 1);
    put(&mut entries, Ident::Discarded, 2);
    put(&mut entries, name("a"), 3);
    put(&mut entries, Ident::Resolved(1), 4);
    put(&mut entries, Ident::Discarded, 5);
    assert_eq!(entries, vec![(name("a"), 3), (Ident::Discarded, 5), (Ident::Resolved(1), 4)]);
}

#[test]
fn merge_prefers_the_first_table() {
    let span = Span::new(0, 0, 1);
    let var = |mutable| Spanned::new(Var { ty: Type::Inferred, mutable }, span);
    let mut first = HoistedScopeData::new();
    first.vars.push((name("a"), var(true)));
    let mut second = HoistedScopeData::default();
    second.vars.push((name("a"), var(false)));
    second.vars.push((name("b"), var(false)));
    let merged = first.merge(second);
    assert_eq!(merged.vars, vec![(name("a"), var(true)), (name("b"), var(false))]);
    assert_eq!(merged.funcs.len(), 0);
}

#[test]
fn a_function_record_holds_name_signature_and_body() {
    let scope = hoisted("extern func f(i32 a) -> void;");
    let (key, func) = &scope.data.funcs[0];
    let Func { id, signature, body } = &func.value;
    assert_eq!(key, &id.value);
    assert_eq!(signature.args.value.len(), 1);
    assert_eq!(signature.to_string(), "extern (i32 a) -> void");
    assert!(body.is_none());
}
