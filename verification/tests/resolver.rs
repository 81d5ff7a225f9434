use frontend::common::diagnostics::{own_diagnostics, Diagnostic, Diagnostics};
use frontend::common::expr::Expr;
use frontend::common::ident::Ident;
use frontend::common::span::{Span, Spanned};
use frontend::common::stmt::Stmt;
use frontend::common::types::Type;
use frontend::hoister::{hoist, HoistedScope, HoistedScopeData, Var};
use frontend::lexer::lex;
use frontend::parser::parse;
use frontend::resolver::mappings::{MapRepr, Mappings};
use frontend::resolver::relation::Role;
use frontend::resolver::{count, resolve, resolve_make_new, resolve_must_exist};

fn resolved_with(code: &str, imported: &HoistedScopeData) -> (HoistedScope, Mappings, usize, Vec<Diagnostic>) {
    let mut sink = Diagnostics::new();
    let tokens = lex(code, 0, &mut sink);
    let parsed = match parse(&tokens, Span::new(0, code.len(), code.len()), &mut sink) {
        Ok(scope) => scope,
        Err(_) => panic!("does not parse"),
    };
    let hoisted = hoist(&parsed);
    let mut counter = 0;
    let (scope, mappings) = resolve(&hoisted, imported, &mut counter, &mut sink);
    (scope, mappings, counter, own_diagnostics(&sink))
}

fn resolved(code: &str) -> (HoistedScope, Mappings, usize, Vec<Diagnostic>) {
    resolved_with(code, &HoistedScopeData::new())
}

fn reports(code: &str) -> Vec<(String, String)> {
    resolved(code)
        .3
        .into_iter()
        .map(|d| (d.message, d.labels[0].message.clone()))
        .collect()
}

fn name(text: &str) -> Ident {
    Ident::Named(text.to_string())
}

fn body_of(scope: &HoistedScope, index: usize) -> &HoistedScope {
    &scope.data.funcs[index].1.value.body.as_ref().unwrap().value
}

fn value_of(scope: &HoistedScope, index: usize) -> &Expr<HoistedScope> {
    match &scope.stmts[index].value {
        Stmt::Create { value, .. } => &value.as_ref().unwrap().value,
        Stmt::Assign { value, .. } => &value.value,
        Stmt::Return { value, .. } => &value.value,
        other => panic!("no value in {:?}", other),
    }
}

#[test]
fn binding_sites_are_numbered_in_order() {
    let (scope, mappings, counter, reported) =
        resolved("func main<T>(T a) { let x = 1; let y = x + a; }");
    assert_eq!(reported, vec![]);
    assert_eq!(counter, 5);
    assert_eq!(scope.stmts.len(), 0);
    let (key, main) = &scope.data.funcs[0];
    assert_eq!(key, &Ident::Resolved(1));
    assert_eq!(main.value.id.value, Ident::Resolved(1));
    assert_eq!(main.value.signature.generics.value[0].value, Ident::Resolved(2));
    assert_eq!(main.value.signature.args.value[0].value.ident.value, Ident::Resolved(3));
    assert_eq!(main.value.signature.args.value[0].value.ty.value, Type::User(Ident::Resolved(2)));
    let body = body_of(&scope, 0);
    let keys: Vec<&Ident> = body.data.vars.iter().map(|(key, _)| key).collect();
    assert_eq!(keys, vec![&Ident::Resolved(4), &Ident::Resolved(5)]);
    match value_of(body, 1) {
        Expr::BinaryOp(l, _, r) => {
            assert_eq!(l.value, Expr::Identifier(Ident::Resolved(4)));
            assert_eq!(r.value, Expr::Identifier(Ident::Resolved(3)));
        }
        other => panic!("resolved as {:?}", other),
    }
    assert_eq!(mappings.get_repr(&1), Some(MapRepr::Func));
    assert_eq!(mappings.get_repr(&2), Some(MapRepr::Type));
    assert_eq!(mappings.get_repr(&3), Some(MapRepr::Var));
    assert_eq!(mappings.get_repr(&4), Some(MapRepr::Var));
    assert_eq!(mappings.get_repr(&5), Some(MapRepr::Var));
    assert_eq!(mappings.get_repr(&6), None);
    assert_eq!(mappings.get_repr(&0), None);
    assert_eq!(mappings.get_by_ident(&name("main")), None);
    assert_eq!(mappings.get_by_id(&1), None);
    assert_eq!(mappings.get_by_ident(&name("x")), None);
}

#[test]
fn spans_and_literals_stay_as_they_are() {
    let code = "func main() { let x = 1u8; }";
    let (scope, _, _, _) = resolved(code);
    let body = body_of(&scope, 0);
    assert_eq!(body.stmts[0].span, Span::new(0, 14, 26));
    assert_eq!(body.data.vars[0].1.span, Span::new(0, 14, 26));
    match &body.stmts[0].value {
        Stmt::Create { ty_id, value, .. } => {
            assert_eq!(ty_id.span, Span::new(0, 18, 19));
            assert_eq!(value.as_ref().unwrap().span, Span::new(0, 22, 25));
        }
        other => panic!("resolved as {:?}", other),
    }
}

#[test]
fn a_declaration_is_in_sight_of_its_own_value() {
    let (scope, _, _, reported) = resolved("func main() { let x = 1; let x = x; }");
    assert_eq!(reported, vec![]);
    let body = body_of(&scope, 0);
    assert_eq!(value_of(body, 1), &Expr::Identifier(Ident::Resolved(3)));
    let keys: Vec<&Ident> = body.data.vars.iter().map(|(key, _)| key).collect();
    assert_eq!(keys, vec![&Ident::Resolved(2), &Ident::Resolved(3)]);
}

#[test]
fn a_name_not_in_sight_becomes_zero() {
    let (scope, _, _, reported) = resolved("func main() { let x = y; }");
    assert_eq!(reported.len(), 1);
    assert_eq!(reported[0].message, "referenced nonexistent item");
    assert_eq!(reported[0].labels[0].message, "'y' is not defined in the current scope");
    assert_eq!(reported[0].labels[0].span, Span::new(0, 22, 23));
    assert_eq!(value_of(body_of(&scope, 0), 0), &Expr::Identifier(Ident::Resolved(0)));
}

#[test]
fn what_a_scope_declares_is_not_in_sight_after_it() {
    assert_eq!(
        reports("func main() { let a = { let b = 1; yield b; }; let c = b; }"),
        vec![(
            "referenced nonexistent item".to_string(),
            "'b' is not defined in the current scope".to_string()
        )]
    );
    assert_eq!(
        reports("func f(i32 a) { return a; } func main() { return a; }"),
        vec![(
            "referenced nonexistent item".to_string(),
            "'a' is not defined in the current scope".to_string()
        )]
    );
    assert_eq!(reports("func f() { func g() {} } func main() { g(); }").len(), 1);
}

#[test]
fn functions_are_in_sight_of_the_whole_scope() {
    assert_eq!(reports("func main() { foo(); bar(); func bar() {} } func foo() { main(); }"), vec![]);
}

#[test]
fn an_outer_name_is_in_sight_of_inner_scopes() {
    assert_eq!(reports("func main() { let a = 1; let b = { yield a; }; func g() { return a; } }"), vec![]);
}

#[test]
fn a_name_is_held_to_its_kind() {
    let mismatch = |text: &str| vec![("type mismatch".to_string(), text.to_string())];
    assert_eq!(reports("func main() { let x = 1; x y = 2; }"), mismatch("used variable as type"));
    assert_eq!(reports("func f() {} func main(f a) {}"), mismatch("used function as type"));
    assert_eq!(reports("func f<T>() { let x = T; }"), mismatch("used type as variable"));
    assert_eq!(reports("func f<T>() { T = 1; }"), mismatch("used type as variable"));
    assert_eq!(reports("func f() {} func main() { f = 1; }"), mismatch("used function as variable"));
    assert_eq!(reports("func f() {} func main() { let g = f; let h = g(f); }"), vec![]);
    assert_eq!(reports("func f<T>(T a) -> T { T b = a; return b; }"), vec![]);
}

#[test]
fn the_wildcard_declares_nothing_and_is_no_value() {
    let (scope, _, counter, reported) = resolved("func main(i32) { let _ = 1; }");
    assert_eq!(reported, vec![]);
    assert_eq!(counter, 1);
    let main = &scope.data.funcs[0].1.value;
    assert_eq!(main.signature.args.value[0].value.ident.value, Ident::Discarded);
    assert_eq!(body_of(&scope, 0).data.vars[0].0, Ident::Discarded);
    assert_eq!(
        reports("func main() { let x = _; }"),
        vec![(
            "referenced discarded item where value is required".to_string(),
            "the operation you are trying to perform requires a value, but you passed in a discarded item".to_string()
        )]
    );
}

#[test]
fn imported_names_are_in_sight() {
    let span = Span::new(9, 0, 1);
    let mut imported = HoistedScopeData::new();
    imported.vars.push((name("answer"), Spanned::new(Var { ty: Type::Inferred, mutable: false }, span)));
    let library = {
        let mut sink = Diagnostics::new();
        let code = "func helper() {}";
        let tokens = lex(code, 9, &mut sink);
        let parsed = parse(&tokens, Span::new(9, code.len(), code.len()), &mut sink).ok().unwrap();
        hoist(&parsed)
    };
    imported.funcs = library.data.funcs;
    let (scope, mappings, counter, reported) =
        resolved_with("func main() { let x = helper() + answer; }", &imported);
    assert_eq!(reported, vec![]);
    assert_eq!(counter, 4);
    assert_eq!(mappings.get_by_ident(&name("helper")), Some(&1));
    assert_eq!(mappings.get_by_ident(&name("answer")), Some(&2));
    assert_eq!(scope.data.funcs[0].0, Ident::Resolved(3));
}

#[test]
fn count_gives_the_next_number() {
    let mut sink = Diagnostics::new();
    let mut counter = 41;
    assert_eq!(count(&mut counter, Span::new(0, 0, 0), &mut sink), 42);
    assert_eq!(counter, 42);
    assert_eq!(sink.len(), 0);
    let mut last = usize::MAX;
    assert_eq!(count(&mut last, Span::new(0, 3, 4), &mut sink), 0);
    assert_eq!(last, usize::MAX);
    let items = own_diagnostics(&sink);
    assert_eq!(items.len(), 1);
    assert_eq!(items[0].message, "ran out of numbers");
    assert_eq!(items[0].labels[0].span, Span::new(0, 3, 4));
}

#[test]
fn the_two_ways_to_resolve_a_name() {
    let mut sink = Diagnostics::new();
    let mut mappings = Mappings::new();
    let mut counter = 0;
    let span = Span::new(0, 0, 1);
    let x = Spanned::new(name("x"), span);
    let made = resolve_make_new(&x, MapRepr::Var, &mut mappings, &mut counter, &mut sink);
    assert_eq!(made, Spanned::new(Ident::Resolved(1), span));
    let again = resolve_make_new(&x, MapRepr::Func, &mut mappings, &mut counter, &mut sink);
    assert_eq!(again, Spanned::new(Ident::Resolved(2), span));
    assert_eq!(mappings.get_by_ident(&name("x")), Some(&2));
    assert_eq!(mappings.get_by_id(&1), None);
    assert_eq!(mappings.get_repr(&1), Some(MapRepr::Var));
    let wild = Spanned::new(Ident::Discarded, span);
    let kept = resolve_make_new(&wild, MapRepr::Var, &mut mappings, &mut counter, &mut sink);
    assert_eq!(kept.value, Ident::Discarded);
    assert_eq!(counter, 2);
    assert_eq!(sink.len(), 0);
    let used = resolve_must_exist(&x, Role::Value, &mappings, &counter, &mut sink);
    assert_eq!(used.value, Ident::Resolved(2));
    assert_eq!(sink.len(), 0);
    let misused = resolve_must_exist(&x, Role::Target, &mappings, &counter, &mut sink);
    assert_eq!(misused.value, Ident::Resolved(2));
    assert_eq!(own_diagnostics(&sink)[0].labels[0].message, "used function as variable");
    let missing = resolve_must_exist(&Spanned::new(name("y"), span), Role::Value, &mappings, &counter, &mut sink);
    assert_eq!(missing.value, Ident::Resolved(0));
    assert_eq!(own_diagnostics(&sink)[1].message, "referenced nonexistent item");
}

#[test]
fn mappings_hold_each_name_and_number_once() {
    let mut mappings = Mappings::new();
    assert_eq!(mappings.get_by_ident(&name("a")), None);
    mappings.insert(1, name("a"), MapRepr::Var);
    mappings.insert_func(2, name("b"));
    mappings.insert_ty(3, name("c"));
    mappings.insert_var(4, Ident::Qualified(vec![name("a"), name("b")]));
    assert_eq!(mappings.get_by_ident(&name("a")), Some(&1));
    assert_eq!(mappings.get_by_ident(&name("b")), Some(&2));
    assert_eq!(mappings.get_by_ident(&Ident::Qualified(vec![name("a"), name("b")])), Some(&4));
    assert_eq!(mappings.get_by_id(&3), Some(&name("c")));
    assert_eq!(mappings.get_repr(&2), Some(MapRepr::Func));
    assert_eq!(mappings.get_repr(&3), Some(MapRepr::Type));
    mappings.insert(5, name("a"), MapRepr::Type);
    assert_eq!(mappings.get_by_ident(&name("a")), Some(&5));
    assert_eq!(mappings.get_by_id(&1), None);
    assert_eq!(mappings.get_repr(&1), Some(MapRepr::Var));
    mappings.insert(2, name("z"), MapRepr::Var);
    assert_eq!(mappings.get_by_ident(&name("b")), None);
    assert_eq!(mappings.get_by_id(&2), Some(&name("z")));
    let copy = mappings.clone();
    mappings.insert(6, name("only_here"), MapRepr::Var);
    assert_eq!(copy.get_by_ident(&name("only_here")), None);
    assert_eq!(copy.get_by_ident(&name("a")), Some(&5));
    assert_eq!(copy.get_repr(&3), Some(MapRepr::Type));
}

#[test]
fn ensure_repr_sets_or_checks_the_kind() {
    let mut sink = Diagnostics::new();
    let mut mappings = Mappings::new();
    let span = Span::new(0, 1, 2);
    mappings.ensure_repr(7, MapRepr::Type, span, &mut sink);
    assert_eq!(mappings.get_repr(&7), Some(MapRepr::Type));
    mappings.ensure_repr(7, MapRepr::Type, span, &mut sink);
    assert_eq!(sink.len(), 0);
    mappings.ensure_repr(7, MapRepr::Var, span, &mut sink);
    assert_eq!(mappings.get_repr(&7), Some(MapRepr::Type));
    assert_eq!(own_diagnostics(&sink)[0].labels[0].message, "used type as variable");
    mappings.set_repr(&7, MapRepr::Func);
    assert_eq!(mappings.get_repr(&7), Some(MapRepr::Func));
}

#[test]
fn a_name_gets_a_number_once() {
    let mut mappings = Mappings::new();
    let mut counter = 4usize;
    let a = mappings.get_or_add_id(&name("a"), &mut counter);
    assert_eq!((a, counter), (5, 5));
    let b = mappings.get_or_add_id(&name("b"), &mut counter);
    assert_eq!((b, counter), (6, 6));
    let again = mappings.get_or_add_id(&name("a"), &mut counter);
    assert_eq!((again, counter), (5, 6));
    assert_eq!(mappings.get_by_id(&5), Some(&name("a")));
    assert_eq!(mappings.get_by_ident(&name("b")), Some(&6));
    assert_eq!(mappings.get_repr(&5), None);
}
