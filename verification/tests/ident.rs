use frontend::common::ident::Ident;
use frontend::common::span::{Span, Spanned};
use frontend::common::types::Type;

fn named(name: &str) -> Ident {
    Ident::Named(name.to_string())
}

#[test]
fn idents_are_written_as_messages_name_them() {
    assert_eq!(named("counter").to_string(), "counter");
    assert_eq!(Ident::Discarded.to_string(), "_");
    assert_eq!(Ident::Resolved(0).to_string(), "@0");
    assert_eq!(Ident::Resolved(1205).to_string(), "@1205");
    let path = Ident::Qualified(vec![named("std"), named("io"), Ident::Resolved(3)]);
    assert_eq!(path.to_string(), "std::io::@3");
    assert_eq!(Ident::Qualified(vec![named("alone")]).to_string(), "alone");
    assert_eq!(Ident::Qualified(vec![]).to_string(), "");
}

#[test]
fn only_the_wildcard_is_discarded() {
    assert!(Ident::Discarded.is_discarded());
    assert!(!named("_").is_discarded());
    assert!(!Ident::Resolved(0).is_discarded());
    assert!(!Ident::Qualified(vec![]).is_discarded());
}

#[test]
fn id_of_a_resolved_ident() {
    assert_eq!(Ident::Resolved(42).id(), 42);
}

#[test]
fn same_compares_structure() {
    assert!(named("a").same(&named("a")));
    assert!(!named("a").same(&named("b")));
    assert!(Ident::Discarded.same(&Ident::Discarded));
    assert!(!Ident::Discarded.same(&named("_")));
    assert!(Ident::Resolved(2).same(&Ident::Resolved(2)));
    assert!(!Ident::Resolved(2).same(&Ident::Resolved(3)));
    let p = Ident::Qualified(vec![named("a"), named("b")]);
    assert!(p.same(&Ident::Qualified(vec![named("a"), named("b")])));
    assert!(!p.same(&Ident::Qualified(vec![named("a")])));
    assert!(!p.same(&Ident::Qualified(vec![named("a"), named("c")])));
    assert!(!p.same(&named("a")));
}

#[test]
fn clone_keeps_the_name() {
    let p = Ident::Qualified(vec![named("a"), Ident::Discarded, Ident::Resolved(9)]);
    assert_eq!(p.clone(), p);
}

#[test]
fn infer_type_leaves_the_type_open() {
    let span = Span::new(2, 5, 6);
    let typed = Spanned::new(named("x"), span).infer_type();
    assert_eq!(typed.span, span);
    assert_eq!(typed.value.ty, Spanned::new(Type::Inferred, span));
    assert_eq!(typed.value.ident, Spanned::new(named("x"), span));
    assert_eq!(typed.ident(), &named("x"));
    assert_eq!(typed.ty(), &Type::Inferred);
}
