use frontend::common::diagnostics::{Diagnostic, Diagnostics, Severity};
use frontend::common::ident::Ident;
use frontend::common::types::BuiltIn;
use frontend::driver::{analyze, Analysis};
use frontend::infer::type_info::TypeInfo;

fn run(code: &str) -> (Analysis, Vec<Diagnostic>) {
    let mut sink = Diagnostics::new();
    let analysis = analyze(code, 0, &mut sink);
    let items = frontend::common::diagnostics::own_diagnostics(&sink);
    (analysis, items)
}

fn number_of(ident: &Ident) -> usize {
    match ident {
        Ident::Resolved(id) => *id,
        other => panic!("not resolved: {:?}", other),
    }
}

#[test]
fn assignment_after_declaration_infers_a_number() {
    let (a, diagnostics) = run("func main() { let x = 1; x = 2; }");
    assert_eq!(diagnostics, vec![]);
    assert_eq!(a.program.stmts.len(), 0);
    assert_eq!(a.program.data.funcs.len(), 1);
    let (key, main) = &a.program.data.funcs[0];
    let main_ty = a.types.get_var_ty(number_of(key)).unwrap();
    match a.engine.resolve(main_ty.value) {
        TypeInfo::FuncSignature { return_ty, args, generics } => {
            assert_eq!(args, vec![]);
            assert_eq!(generics, vec![]);
            assert_eq!(a.engine.resolve(return_ty), TypeInfo::BuiltIn(BuiltIn::Void));
        }
        other => panic!("main is {:?}", other),
    }
    let body = main.value.body.as_ref().unwrap();
    assert_eq!(body.value.stmts.len(), 2);
    assert_eq!(body.value.data.vars.len(), 1);
    let x = number_of(&body.value.data.vars[0].0);
    let x_ty = a.types.get_var_ty(x).unwrap();
    assert_eq!(a.engine.resolve(x_ty.value), TypeInfo::Number(None));
}

#[test]
fn assignment_to_unknown_name_is_reported() {
    let (_, diagnostics) = run("func main() { y = 1; }");
    assert_eq!(diagnostics.len(), 1);
    let d = &diagnostics[0];
    assert_eq!(d.severity, Severity::Error);
    assert_eq!(d.message, "referenced nonexistent item");
    assert_eq!(d.labels.len(), 1);
    assert_eq!(d.labels[0].message, "'y' is not defined in the current scope");
    assert_eq!((d.labels[0].span.start, d.labels[0].span.end), (14, 15));
}

#[test]
fn missing_return_conflicts_with_declared_type() {
    let (_, diagnostics) = run("func main() -> i32 { let x = 1; }");
    assert_eq!(diagnostics.len(), 1);
    let d = &diagnostics[0];
    assert_eq!(d.severity, Severity::Error);
    assert_eq!(d.message, "type conflict: incorrect return type");
    assert_eq!(
        d.notes,
        vec![
            "return type was declared to be i32 but a value of type void was returned instead (or no return statement exists)".to_string(),
            "(i32 is a non-void type)".to_string(),
        ]
    );
    assert_eq!(d.labels.len(), 2);
    assert_eq!(d.labels[0].message, "(i32)");
    assert_eq!(d.labels[1].message, "(void)");
}

#[test]
fn generic_identity_returns_its_argument_type() {
    let (a, diagnostics) = run("func id<T>(T x) -> T => x;");
    assert_eq!(diagnostics, vec![]);
    let (key, func) = &a.program.data.funcs[0];
    let generic = number_of(&func.value.signature.generics.value[0].value);
    let ty = a.types.get_var_ty(number_of(key)).unwrap();
    match a.engine.resolve(ty.value) {
        TypeInfo::FuncSignature { return_ty, args, generics } => {
            assert_eq!(args.len(), 1);
            assert_eq!(generics.len(), 1);
            assert_eq!(a.engine.resolve(return_ty), TypeInfo::UnknownGeneric(generic));
            assert_eq!(a.engine.resolve(args[0]), TypeInfo::UnknownGeneric(generic));
        }
        other => panic!("id is {:?}", other),
    }
}

#[test]
fn literal_of_other_type_is_an_implicit_cast() {
    let (_, diagnostics) = run("func main() { let i32 x = 1u32; }");
    assert_eq!(diagnostics.len(), 1);
    let d = &diagnostics[0];
    assert_eq!(d.severity, Severity::Error);
    assert_eq!(d.message, "type conflict");
    assert_eq!(
        d.notes,
        vec!["disallowed implicit cast between numeric types i32 and u32".to_string()]
    );
}

#[test]
fn function_is_visible_before_its_declaration() {
    let (_, diagnostics) = run("func main() { foo(); } func foo() {}");
    assert_eq!(diagnostics, vec![]);
}

#[test]
fn variable_is_not_visible_before_its_declaration() {
    let (_, diagnostics) = run("func main() { x = 1; let x = 2; }");
    assert_eq!(diagnostics.len(), 1);
    assert_eq!(diagnostics[0].message, "referenced nonexistent item");
}

#[test]
fn top_level_declaration_in_pascal_case() {
    let (_, diagnostics) = run("let X = 3;");
    assert_eq!(diagnostics.len(), 2);
    assert_eq!(diagnostics[0].severity, Severity::Error);
    assert_eq!(diagnostics[0].message, "invalid create statement in top level context");
    assert_eq!(diagnostics[1].severity, Severity::Warning);
    assert_eq!(diagnostics[1].message, "wrong case system used");
    assert_eq!(diagnostics[1].labels[0].message, "expected snake case, found pascal case");
}

#[test]
fn surface_example_compiles_cleanly() {
    let code = "func add<T>(T a, T b) pure => a + b;\nfunc main() {\n    mut i32 counter = 0;\n    let sum = add(counter, 1);\n    counter = sum;\n}\n";
    let (_, diagnostics) = run(code);
    assert_eq!(diagnostics, vec![]);
}
