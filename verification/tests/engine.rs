use frontend::common::diagnostics::{own_diagnostics, Diagnostic, Diagnostics, Label, LabelStyle, Severity};
use frontend::common::span::{Span, Spanned};
use frontend::common::types::BuiltIn;
use frontend::infer::engine::{decide_infos, fits, ConflictKind, Decision, Engine};
use frontend::infer::type_info::TypeInfo;
use frontend::lexer::NumberLiteralType;

fn i32_info() -> TypeInfo {
    TypeInfo::BuiltIn(BuiltIn::Integer { bits: Some(32), signed: true })
}

fn u32_info() -> TypeInfo {
    TypeInfo::BuiltIn(BuiltIn::Integer { bits: Some(32), signed: false })
}

fn void_info() -> TypeInfo {
    TypeInfo::BuiltIn(BuiltIn::Void)
}

fn some_int(signed: bool) -> TypeInfo {
    TypeInfo::Number(Some(NumberLiteralType::Integer { bits: None, signed }))
}

fn some_float() -> TypeInfo {
    TypeInfo::Number(Some(NumberLiteralType::Float { bits: None }))
}

fn at(id: usize, start: usize) -> Spanned<usize> {
    Spanned::new(id, Span::new(0, start, start + 1))
}

fn pair(a: TypeInfo, b: TypeInfo) -> (Engine, usize, usize) {
    let mut engine = Engine::new();
    let a = engine.add_ty(a);
    let b = engine.add_ty(b);
    (engine, a, b)
}

fn unified(a: TypeInfo, b: TypeInfo) -> (TypeInfo, Vec<Diagnostic>, Engine) {
    let (mut engine, a, b) = pair(a, b);
    let mut sink = Diagnostics::new();
    let info = engine.unify(at(a, 10), at(b, 20), &mut sink);
    (info, own_diagnostics(&sink), engine)
}

fn conflict(first: &str, second: &str, reason: &str) -> Vec<Diagnostic> {
    let label = |start: usize, text: &str| Label {
        style: LabelStyle::Primary,
        span: Span::new(0, start, start + 1),
        message: format!("({text})"),
    };
    vec![Diagnostic {
        severity: Severity::Error,
        message: "type conflict".to_string(),
        labels: vec![label(10, first), label(20, second)],
        notes: vec![reason.to_string()],
    }]
}

#[test]
fn handles_count_up_from_one() {
    let mut engine = Engine::new();
    assert_eq!(engine.id_counter(), 0);
    assert_eq!(engine.add_ty(TypeInfo::Unknown), 1);
    assert_eq!(engine.add_ty(TypeInfo::SameAs(1)), 2);
    assert_eq!(engine.add_ty(i32_info()), 3);
    assert_eq!(engine.id_counter(), 3);
    assert_eq!(engine.get(2), Some(&TypeInfo::SameAs(1)));
    assert_eq!(engine.get(4), None);
    assert_eq!(engine.get(0), None);
    assert_eq!(engine.find(2), 1);
    assert_eq!(engine.find(3), 3);
    assert_eq!(engine.resolve(2), TypeInfo::Unknown);
}

#[test]
fn record_reports_when_no_handle_is_left() {
    let mut engine = Engine::new();
    let mut sink = Diagnostics::new();
    assert_eq!(engine.record(TypeInfo::Bottom, Span::new(0, 0, 1), &mut sink), 1);
    assert_eq!(engine.get(1), Some(&TypeInfo::Bottom));
    assert_eq!(sink.len(), 0);
}

#[test]
fn equal_types_unify_without_change() {
    let (info, reported, engine) = unified(i32_info(), i32_info());
    assert_eq!(info, i32_info());
    assert_eq!(reported, vec![]);
    assert_eq!(engine.get(1), Some(&i32_info()));
    assert_eq!(engine.get(2), Some(&i32_info()));
    let (info, reported, engine) = unified(TypeInfo::Unknown, TypeInfo::Unknown);
    assert_eq!(info, TypeInfo::Unknown);
    assert_eq!(reported, vec![]);
    assert_eq!(engine.get(1), Some(&TypeInfo::Unknown));
    let (info, reported, _) = unified(TypeInfo::Generic(4), TypeInfo::Generic(4));
    assert_eq!(info, TypeInfo::Generic(4));
    assert_eq!(reported, vec![]);
}

#[test]
fn the_unknown_side_becomes_the_other() {
    let (info, reported, engine) = unified(TypeInfo::Unknown, i32_info());
    assert_eq!(info, i32_info());
    assert_eq!(reported, vec![]);
    assert_eq!(engine.get(1), Some(&TypeInfo::SameAs(2)));
    assert_eq!(engine.get(2), Some(&i32_info()));
    let (info, reported, engine) = unified(TypeInfo::Generic(3), TypeInfo::Unknown);
    assert_eq!(info, TypeInfo::Generic(3));
    assert_eq!(reported, vec![]);
    assert_eq!(engine.get(1), Some(&TypeInfo::Generic(3)));
    assert_eq!(engine.get(2), Some(&TypeInfo::SameAs(1)));
}

#[test]
fn references_are_followed_to_their_ends() {
    let mut engine = Engine::new();
    let unknown = engine.add_ty(TypeInfo::Unknown);
    let link = engine.add_ty(TypeInfo::SameAs(unknown));
    let chain = engine.add_ty(TypeInfo::SameAs(link));
    let concrete = engine.add_ty(u32_info());
    let other = engine.add_ty(TypeInfo::SameAs(concrete));
    let mut sink = Diagnostics::new();
    let info = engine.unify(at(chain, 0), at(other, 5), &mut sink);
    assert_eq!(info, u32_info());
    assert_eq!(sink.len(), 0);
    assert_eq!(engine.get(unknown), Some(&TypeInfo::SameAs(concrete)));
    assert_eq!(engine.get(chain), Some(&TypeInfo::SameAs(link)));
    assert_eq!(engine.find(chain), concrete);
    assert_eq!(engine.resolve(link), u32_info());
    let again = engine.unify(at(link, 0), at(concrete, 5), &mut sink);
    assert_eq!(again, u32_info());
    assert_eq!(sink.len(), 0);
}

#[test]
fn the_failed_type_absorbs() {
    for (a, b) in [(TypeInfo::Bottom, i32_info()), (void_info(), TypeInfo::Bottom), (TypeInfo::Bottom, TypeInfo::Unknown)] {
        let (info, reported, engine) = unified(a.clone(), b.clone());
        assert_eq!(info, TypeInfo::Bottom);
        assert_eq!(reported, vec![]);
        assert_eq!(engine.get(1), Some(&a));
        assert_eq!(engine.get(2), Some(&b));
    }
}

#[test]
fn void_unifies_with_void_only() {
    let (info, reported, engine) = unified(i32_info(), void_info());
    assert_eq!(info, TypeInfo::Bottom);
    assert_eq!(reported, conflict("i32", "void", "(i32 is a non-void type)"));
    assert_eq!(engine.get(1), Some(&i32_info()));
    let (info, reported, _) = unified(void_info(), TypeInfo::Number(None));
    assert_eq!(info, TypeInfo::Bottom);
    assert_eq!(reported, conflict("void", "num", "(num is a non-void type)"));
    let (info, reported, _) = unified(void_info(), void_info());
    assert_eq!(info, void_info());
    assert_eq!(reported, vec![]);
}

#[test]
fn built_in_types_that_differ_are_an_implicit_cast() {
    let (info, reported, _) = unified(i32_info(), u32_info());
    assert_eq!(info, TypeInfo::Bottom);
    assert_eq!(
        reported,
        conflict("i32", "u32", "disallowed implicit cast between numeric types i32 and u32")
    );
    let (_, reported, _) = unified(
        TypeInfo::BuiltIn(BuiltIn::Float { bits: 64 }),
        TypeInfo::BuiltIn(BuiltIn::Integer { bits: None, signed: false }),
    );
    assert_eq!(
        reported,
        conflict("f64", "usize", "disallowed implicit cast between numeric types f64 and usize")
    );
}

#[test]
fn a_number_takes_a_built_in_type_of_its_family() {
    let (info, reported, engine) = unified(TypeInfo::Number(None), i32_info());
    assert_eq!(info, i32_info());
    assert_eq!(reported, vec![]);
    assert_eq!(engine.get(1), Some(&TypeInfo::SameAs(2)));
    let (info, reported, engine) = unified(i32_info(), TypeInfo::Number(None));
    assert_eq!(info, i32_info());
    assert_eq!(reported, vec![]);
    assert_eq!(engine.get(1), Some(&i32_info()));
    assert_eq!(engine.get(2), Some(&TypeInfo::SameAs(1)));
    let (info, reported, _) = unified(some_int(true), i32_info());
    assert_eq!(info, i32_info());
    assert_eq!(reported, vec![]);
    let (info, reported, _) = unified(some_float(), TypeInfo::BuiltIn(BuiltIn::Float { bits: 16 }));
    assert_eq!(info, TypeInfo::BuiltIn(BuiltIn::Float { bits: 16 }));
    assert_eq!(reported, vec![]);
}

#[test]
fn a_number_of_another_family_is_an_implicit_cast() {
    let (info, reported, _) = unified(some_int(false), i32_info());
    assert_eq!(info, TypeInfo::Bottom);
    assert_eq!(
        reported,
        conflict("uint", "i32", "disallowed implicit cast between numeric types uint and i32")
    );
    let (_, reported, _) = unified(i32_info(), some_float());
    assert_eq!(
        reported,
        conflict("i32", "float", "disallowed implicit cast between numeric types i32 and float")
    );
    let stated = TypeInfo::Number(Some(NumberLiteralType::Integer { bits: Some(Some(8)), signed: true }));
    let (_, reported, _) = unified(stated.clone(), i32_info());
    assert_eq!(
        reported,
        conflict("i8", "i32", "disallowed implicit cast between numeric types i8 and i32")
    );
    let (info, reported, _) =
        unified(stated, TypeInfo::BuiltIn(BuiltIn::Integer { bits: Some(8), signed: true }));
    assert_eq!(info, TypeInfo::BuiltIn(BuiltIn::Integer { bits: Some(8), signed: true }));
    assert_eq!(reported, vec![]);
}

#[test]
fn anything_else_does_not_unify() {
    let (info, reported, _) = unified(TypeInfo::Number(None), some_int(true));
    assert_eq!(info, TypeInfo::Bottom);
    assert_eq!(reported, conflict("num", "int", "could not unify num and int"));
    let (_, reported, _) = unified(TypeInfo::Generic(1), TypeInfo::Generic(2));
    assert_eq!(
        reported,
        conflict("[generic @1]", "[generic @2]", "could not unify [generic @1] and [generic @2]")
    );
    let (_, reported, _) = unified(TypeInfo::Generic(1), i32_info());
    assert_eq!(reported, conflict("[generic @1]", "i32", "could not unify [generic @1] and i32"));
    let (_, reported, _) = unified(TypeInfo::UnknownGeneric(1), TypeInfo::Generic(1));
    assert_eq!(
        reported,
        conflict(
            "[unresolved generic @1]",
            "[generic @1]",
            "could not unify [unresolved generic @1] and [generic @1]"
        )
    );
}

#[test]
fn unification_does_not_depend_on_the_order() {
    let cases = [
        (TypeInfo::Unknown, i32_info()),
        (TypeInfo::Number(None), i32_info()),
        (some_int(true), u32_info()),
        (TypeInfo::Bottom, void_info()),
        (void_info(), i32_info()),
        (i32_info(), u32_info()),
        (TypeInfo::Generic(1), TypeInfo::Unknown),
        (TypeInfo::Unknown, TypeInfo::Unknown),
    ];
    for (a, b) in cases {
        let mut forth = Engine::new();
        let (x, y) = (forth.add_ty(a.clone()), forth.add_ty(b.clone()));
        let mut back = Engine::new();
        back.add_ty(a.clone());
        back.add_ty(b.clone());
        let mut forth_sink = Diagnostics::new();
        let mut back_sink = Diagnostics::new();
        let one = forth.unify(at(x, 10), at(y, 20), &mut forth_sink);
        let other = back.unify(at(y, 20), at(x, 10), &mut back_sink);
        assert_eq!(one, other);
        assert_eq!(forth.get(x), back.get(x));
        assert_eq!(forth.get(y), back.get(y));
        let forth_items = own_diagnostics(&forth_sink);
        let back_items = own_diagnostics(&back_sink);
        assert_eq!(forth_items.len(), back_items.len());
        for (f, b) in forth_items.iter().zip(back_items.iter()) {
            assert_eq!(f.severity, b.severity);
            assert_eq!(f.message, b.message);
            let mut reversed = b.labels.clone();
            reversed.reverse();
            assert_eq!(f.labels, reversed);
        }
    }
}

#[test]
fn a_number_literal_takes_a_signed_integer_of_32_bits() {
    let (info, reported, _) = unified(TypeInfo::Number(None), i32_info());
    assert_eq!(info, i32_info());
    assert_eq!(reported, vec![]);
}

#[test]
fn a_conflict_under_another_title_keeps_the_notes_first() {
    let (mut engine, a, b) = pair(i32_info(), void_info());
    let mut sink = Diagnostics::new();
    let info = engine.unify_custom_error(
        at(a, 1),
        at(b, 2),
        "custom title",
        vec!["first note".to_string(), "second note".to_string()],
        &mut sink,
    );
    assert_eq!(info, TypeInfo::Bottom);
    let items = own_diagnostics(&sink);
    assert_eq!(items.len(), 1);
    assert_eq!(items[0].message, "custom title");
    assert_eq!(items[0].notes, vec!["first note", "second note", "(i32 is a non-void type)"]);
}

#[test]
fn unify_inner_returns_reason_and_both_types() {
    let (mut engine, a, b) = pair(i32_info(), u32_info());
    assert_eq!(
        engine.unify_inner(at(a, 0), at(b, 0)),
        Err((
            "disallowed implicit cast between numeric types i32 and u32".to_string(),
            "i32".to_string(),
            "u32".to_string()
        ))
    );
    assert_eq!(engine.unify_inner(at(a, 0), at(a, 0)), Ok(()));
}

#[test]
fn decisions_follow_the_table() {
    assert_eq!(decide_infos(&i32_info(), &i32_info()), Decision::Keep);
    assert_eq!(decide_infos(&TypeInfo::Bottom, &i32_info()), Decision::Keep);
    assert_eq!(decide_infos(&TypeInfo::Unknown, &TypeInfo::Bottom), Decision::Keep);
    assert_eq!(decide_infos(&TypeInfo::Unknown, &void_info()), Decision::LinkFirst);
    assert_eq!(decide_infos(&void_info(), &TypeInfo::Unknown), Decision::LinkSecond);
    assert_eq!(decide_infos(&void_info(), &i32_info()), Decision::Conflict(ConflictKind::NonVoid));
    assert_eq!(decide_infos(&i32_info(), &u32_info()), Decision::Conflict(ConflictKind::ImplicitCast));
    assert_eq!(decide_infos(&TypeInfo::Number(None), &u32_info()), Decision::LinkFirst);
    assert_eq!(decide_infos(&u32_info(), &TypeInfo::Number(None)), Decision::LinkSecond);
    assert_eq!(decide_infos(&some_int(true), &u32_info()), Decision::Conflict(ConflictKind::ImplicitCast));
    assert_eq!(
        decide_infos(&TypeInfo::Number(None), &TypeInfo::Generic(1)),
        Decision::Conflict(ConflictKind::CouldNotUnify)
    );
    let signature = TypeInfo::FuncSignature { return_ty: 1, args: vec![], generics: vec![] };
    assert_eq!(decide_infos(&signature, &i32_info()), Decision::Conflict(ConflictKind::CouldNotUnify));
    assert_eq!(decide_infos(&signature, &signature.clone()), Decision::Keep);
}

#[test]
fn fits_compares_family_and_width() {
    let int = BuiltIn::Integer { bits: Some(16), signed: true };
    let float = BuiltIn::Float { bits: 32 };
    assert!(fits(&None, &int));
    assert!(fits(&None, &float));
    assert!(fits(&Some(NumberLiteralType::Integer { bits: None, signed: true }), &int));
    assert!(!fits(&Some(NumberLiteralType::Integer { bits: None, signed: false }), &int));
    assert!(fits(&Some(NumberLiteralType::Integer { bits: Some(Some(16)), signed: true }), &int));
    assert!(!fits(&Some(NumberLiteralType::Integer { bits: Some(Some(8)), signed: true }), &int));
    assert!(!fits(&Some(NumberLiteralType::Integer { bits: Some(None), signed: true }), &int));
    assert!(fits(
        &Some(NumberLiteralType::Integer { bits: Some(None), signed: true }),
        &BuiltIn::Integer { bits: None, signed: true }
    ));
    assert!(fits(&Some(NumberLiteralType::Float { bits: None }), &float));
    assert!(fits(&Some(NumberLiteralType::Float { bits: Some(32) }), &float));
    assert!(!fits(&Some(NumberLiteralType::Float { bits: Some(64) }), &float));
    assert!(!fits(&Some(NumberLiteralType::Float { bits: None }), &int));
    assert!(!fits(&Some(NumberLiteralType::Integer { bits: None, signed: true }), &float));
}

#[test]
fn types_are_written_through_their_references() {
    let mut engine = Engine::new();
    let unknown = engine.add_ty(TypeInfo::Unknown);
    let int = engine.add_ty(i32_info());
    let void = engine.add_ty(void_info());
    let generic = engine.add_ty(TypeInfo::UnknownGeneric(9));
    let link = engine.add_ty(TypeInfo::SameAs(int));
    let signature = TypeInfo::FuncSignature {
        return_ty: void,
        args: vec![link, unknown],
        generics: vec![generic],
    };
    assert_eq!(signature.display(&engine), "[<[unresolved generic @9]>(i32, ?) -> void]");
    let bare = TypeInfo::FuncSignature { return_ty: void, args: vec![], generics: vec![] };
    assert_eq!(bare.display(&engine), "[ -> void]");
    assert_eq!(TypeInfo::SameAs(link).display(&engine), "i32");
    assert_eq!(TypeInfo::SameAs(99).display(&engine), "[?]");
    assert_eq!(TypeInfo::Bottom.display(&engine), "[!]");
    assert_eq!(TypeInfo::Number(None).display(&engine), "num");
    assert_eq!(some_int(false).display(&engine), "uint");
    assert_eq!(TypeInfo::Generic(3).display(&engine), "[generic @3]");
    assert_eq!(
        signature.display_custom(|id| format!("#{id}")),
        "[<#4>(#5, #1) -> #3]"
    );
    assert_eq!(TypeInfo::SameAs(2).display_custom(|id| format!("#{id}")), "#2");
    assert_eq!(i32_info().display_custom(|id| format!("#{id}")), "i32");
    let sig_id = engine.add_ty(signature);
    assert_eq!(
        engine.dump(),
        vec![
            "@1 -> ?",
            "@2 -> i32",
            "@3 -> void",
            "@4 -> [unresolved generic @9]",
            "@5 -> [@2 (i32)]",
            "@6 -> [<[@4 ([unresolved generic @9])]>([@5 (i32)], [@1 (?)]) -> [@3 (void)]]",
        ]
    );
    assert_eq!(engine.describe(sig_id), engine.dump()[5]);
}

#[test]
fn infos_compare_and_copy() {
    let signature = TypeInfo::FuncSignature { return_ty: 1, args: vec![2, 3], generics: vec![] };
    assert!(signature.same(&signature.clone()));
    assert!(!signature.same(&TypeInfo::FuncSignature { return_ty: 1, args: vec![2], generics: vec![] }));
    assert!(!signature.same(&TypeInfo::Unknown));
    assert!(TypeInfo::Unknown.same(&TypeInfo::Unknown));
    assert!(!TypeInfo::Generic(1).same(&TypeInfo::UnknownGeneric(1)));
    assert!(TypeInfo::Number(None).same(&TypeInfo::Number(None)));
    assert!(!TypeInfo::Number(None).same(&some_int(true)));
}
