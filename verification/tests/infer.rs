use frontend::common::diagnostics::{own_diagnostics, Diagnostic, Diagnostics, Severity};
use frontend::common::ident::Ident;
use frontend::common::span::{Span, Spanned};
use frontend::common::types::{BuiltIn, Type};
use frontend::driver::analyze;
use frontend::hoister::{hoist, HoistedScopeData};
use frontend::infer::mappings::Mappings;
use frontend::infer::to_info::{literal_to_info, type_to_info};
use frontend::infer::type_info::TypeInfo;
use frontend::infer::{engine, infer};
use frontend::lexer::{lex, NumberLiteral, NumberLiteralKind, NumberLiteralType};
use frontend::parser::parse;
use frontend::resolver::resolve;

fn analyzed(code: &str) -> Vec<Diagnostic> {
    let mut sink = Diagnostics::new();
    analyze(code, 0, &mut sink);
    own_diagnostics(&sink)
}

fn literal(ty: Option<NumberLiteralType>) -> NumberLiteral {
    NumberLiteral { value: "1".to_string(), kind: NumberLiteralKind::Decimal, ty }
}

#[test]
fn a_literal_with_a_width_has_a_built_in_type() {
    assert_eq!(literal_to_info(&literal(None)), TypeInfo::Number(None));
    let family = Some(NumberLiteralType::Integer { bits: None, signed: false });
    assert_eq!(literal_to_info(&literal(family)), TypeInfo::Number(family));
    let float = Some(NumberLiteralType::Float { bits: None });
    assert_eq!(literal_to_info(&literal(float)), TypeInfo::Number(float));
    assert_eq!(
        literal_to_info(&literal(Some(NumberLiteralType::Integer { bits: Some(Some(8)), signed: true }))),
        TypeInfo::BuiltIn(BuiltIn::Integer { bits: Some(8), signed: true })
    );
    assert_eq!(
        literal_to_info(&literal(Some(NumberLiteralType::Integer { bits: Some(None), signed: false }))),
        TypeInfo::BuiltIn(BuiltIn::Integer { bits: None, signed: false })
    );
    assert_eq!(
        literal_to_info(&literal(Some(NumberLiteralType::Float { bits: Some(64) }))),
        TypeInfo::BuiltIn(BuiltIn::Float { bits: 64 })
    );
}

#[test]
fn a_written_type_stands_for_what_is_registered() {
    let mut table = engine();
    let generic = table.add_ty(TypeInfo::Generic(5));
    let mut mappings = Mappings::new();
    mappings.insert_named_ty(5, Spanned::new(generic, Span::new(0, 0, 1)));
    assert_eq!(mappings.get_named_ty(5), Some(Spanned::new(generic, Span::new(0, 0, 1))));
    assert_eq!(mappings.get_named_ty(6), None);
    assert_eq!(mappings.get_var_ty(5), None);
    mappings.insert_var_ty(7, Spanned::new(generic, Span::new(0, 2, 3)));
    assert_eq!(mappings.get_var_ty(7), Some(Spanned::new(generic, Span::new(0, 2, 3))));
    let user = |ident| Type::User(ident);
    assert_eq!(type_to_info(&user(Ident::Resolved(5)), &mappings, &table), TypeInfo::Generic(5));
    assert_eq!(type_to_info(&user(Ident::Resolved(6)), &mappings, &table), TypeInfo::Bottom);
    assert_eq!(type_to_info(&user(Ident::Resolved(0)), &mappings, &table), TypeInfo::Bottom);
    assert_eq!(type_to_info(&user(Ident::Named("T".to_string())), &mappings, &table), TypeInfo::Bottom);
    assert_eq!(type_to_info(&Type::Inferred, &mappings, &table), TypeInfo::Unknown);
    assert_eq!(
        type_to_info(&Type::BuiltIn(BuiltIn::Void), &mappings, &table),
        TypeInfo::BuiltIn(BuiltIn::Void)
    );
    assert_eq!(
        type_to_info(&Type::Generic(Box::new(Type::Inferred), vec![]), &mappings, &table),
        TypeInfo::Unknown
    );
}

#[test]
fn statements_after_a_return_are_warned_of() {
    let reported = analyzed("func main() { return 1; let x = 2; x = 3; }");
    assert_eq!(reported.len(), 2);
    for (d, span) in reported.iter().zip([Span::new(0, 24, 34), Span::new(0, 35, 41)]) {
        assert_eq!(d.severity, Severity::Warning);
        assert_eq!(d.message, "unnecessary stmt");
        assert_eq!(d.labels[0].span, span);
    }
}

#[test]
fn the_returned_value_is_held_to_the_declared_type() {
    assert_eq!(analyzed("func f() -> i32 { return 1; }"), vec![]);
    assert_eq!(analyzed("func f() -> i32 { return 1i32; }"), vec![]);
    assert_eq!(analyzed("func f() -> void {}"), vec![]);
    assert_eq!(analyzed("func f(i32 a) -> i32 => a + 1;"), vec![]);
    let reported = analyzed("func f() -> i32 { return 1u8; }");
    assert_eq!(reported.len(), 1);
    assert_eq!(reported[0].message, "type conflict: incorrect return type");
    assert_eq!(
        reported[0].notes,
        vec![
            "return type was declared to be i32 but a value of type u8 was returned instead",
            "disallowed implicit cast between numeric types i32 and u8",
        ]
    );
    assert_eq!(reported[0].labels[0].span, Span::new(0, 12, 15));
    assert_eq!(reported[0].labels[0].message, "(i32)");
    assert_eq!(reported[0].labels[1].span, Span::new(0, 16, 31));
    assert_eq!(reported[0].labels[1].message, "(u8)");
}

#[test]
fn operands_and_assignments_are_unified() {
    assert_eq!(analyzed("func f(i32 a, i32 b) { let c = a + b * 2; }"), vec![]);
    let reported = analyzed("func f(i32 a, u8 b) { let c = a + b; }");
    assert_eq!(reported.len(), 1);
    assert_eq!(reported[0].message, "type conflict");
    assert_eq!(
        reported[0].notes,
        vec!["disallowed implicit cast between numeric types i32 and u8"]
    );
    let reported = analyzed("func f() { mut i32 x = 0; x = 1.5f32; }");
    assert_eq!(reported.len(), 1);
    assert_eq!(
        reported[0].notes,
        vec!["disallowed implicit cast between numeric types i32 and f32"]
    );
}

#[test]
fn a_failed_name_takes_part_in_nothing_further() {
    let reported = analyzed("func f() { let x = y + 1; let z = x; }");
    assert_eq!(reported.len(), 1);
    assert_eq!(reported[0].message, "referenced nonexistent item");
}

#[test]
fn infer_returns_what_it_reported() {
    let code = "func f() -> i32 { return 1u8; }";
    let mut sink = Diagnostics::new();
    let tokens = lex(code, 0, &mut sink);
    let parsed = parse(&tokens, Span::new(0, code.len(), code.len()), &mut sink).ok().unwrap();
    let mut counter = 0;
    let (program, _) = resolve(&hoist(&parsed), &HoistedScopeData::new(), &mut counter, &mut sink);
    assert_eq!(sink.len(), 0);
    let whole = Spanned::new(program, Span::new(0, 0, code.len()));
    let mut table = engine();
    match infer(&whole, &mut table, &mut sink) {
        Err(reported) => {
            assert_eq!(reported.len(), 1);
            assert_eq!(own_diagnostics(&sink), reported);
        }
        Ok(_) => panic!("no conflict found"),
    }
    let mut clean = Diagnostics::new();
    let mut other = engine();
    let good = "func f() -> i32 { return 1; }";
    let tokens = lex(good, 0, &mut clean);
    let parsed = parse(&tokens, Span::new(0, good.len(), good.len()), &mut clean).ok().unwrap();
    let mut counter = 0;
    let (program, _) = resolve(&hoist(&parsed), &HoistedScopeData::new(), &mut counter, &mut clean);
    let whole = Spanned::new(program, Span::new(0, 0, good.len()));
    match infer(&whole, &mut other, &mut clean) {
        Ok(types) => assert!(types.get_var_ty(1).is_some()),
        Err(reported) => panic!("reported {:?}", reported),
    }
    assert_eq!(clean.len(), 0);
}

#[test]
fn a_name_is_found_by_its_type() {
    let mut mappings = frontend::infer::mappings::Mappings::new();
    let at = Span::new(0, 0, 1);
    mappings.insert_var_ty(7, Spanned { span: at, value: 3 });
    mappings.insert_named_ty(8, Spanned { span: at, value: 4 });
    mappings.insert_named_ty(9, Spanned { span: at, value: 3 });
    assert_eq!(mappings.get_id_from_ty(3), Some(7));
    assert_eq!(mappings.get_id_from_ty(4), Some(8));
    assert_eq!(mappings.get_id_from_ty(5), None);
}
