use frontend::checker::case::{
    begins_with_uppercase, check, check_ident, detect, has_uppercase, is_uppercase, Case,
};
use frontend::common::diagnostics::{own_diagnostics, Diagnostics, LabelStyle, Severity};
use frontend::common::ident::Ident;
use frontend::common::span::{Span, Spanned};

#[test]
fn is_uppercase_means_no_lowercase_letter() {
    assert!(is_uppercase("MAX_LEN"));
    assert!(is_uppercase("A1_"));
    assert!(is_uppercase(""));
    assert!(is_uppercase("123"));
    assert!(!is_uppercase("Max"));
    assert!(!is_uppercase("ÀÉé"));
}

#[test]
fn has_uppercase_means_some_uppercase_letter() {
    assert!(has_uppercase("camelCase"));
    assert!(has_uppercase("É"));
    assert!(!has_uppercase("snake_case_1"));
    assert!(!has_uppercase(""));
}

#[test]
fn begins_with_uppercase_looks_at_the_first_character() {
    assert!(begins_with_uppercase("Pascal"));
    assert!(!begins_with_uppercase("camelCase"));
    assert!(!begins_with_uppercase("_X"));
    assert!(!begins_with_uppercase(""));
}

#[test]
fn detect_when_pascal_case_is_wanted() {
    assert_eq!(detect("Point", Case::PascalCase), Case::PascalCase);
    assert_eq!(detect("T", Case::PascalCase), Case::PascalCase);
    assert_eq!(detect("MAX_LEN", Case::PascalCase), Case::UpperSnakeCase);
    assert_eq!(detect("max_len", Case::PascalCase), Case::SnakeCase);
    assert_eq!(detect("Max_Len", Case::PascalCase), Case::SnakeCase);
    assert_eq!(detect("maxLen", Case::PascalCase), Case::CamelCase);
    assert_eq!(detect("point", Case::PascalCase), Case::SnakeCamel);
    assert_eq!(detect("_", Case::PascalCase), Case::UpperSnakeCase);
}

#[test]
fn detect_when_snake_case_is_wanted() {
    assert_eq!(detect("max_len", Case::SnakeCase), Case::SnakeCase);
    assert_eq!(detect("x", Case::SnakeCase), Case::SnakeCase);
    assert_eq!(detect("_", Case::SnakeCase), Case::SnakeCase);
    assert_eq!(detect("max_Len", Case::SnakeCase), Case::SnakeCase);
    assert_eq!(detect("MAX_LEN", Case::SnakeCase), Case::UpperSnakeCase);
    assert_eq!(detect("X", Case::SnakeCase), Case::PascalCase);
    assert_eq!(detect("MaxLen", Case::SnakeCase), Case::PascalCase);
    assert_eq!(detect("maxLen", Case::SnakeCase), Case::CamelCase);
}

#[test]
fn detect_when_upper_snake_case_is_wanted() {
    assert_eq!(detect("MAX_LEN", Case::UpperSnakeCase), Case::UpperSnakeCase);
    assert_eq!(detect("MAX", Case::UpperSnakeCase), Case::UpperSnakeCase);
    assert_eq!(detect("max_len", Case::UpperSnakeCase), Case::SnakeCase);
    assert_eq!(detect("MaxLen", Case::UpperSnakeCase), Case::PascalCase);
    assert_eq!(detect("maxlen", Case::UpperSnakeCase), Case::PascalCase);
}

#[test]
fn check_warns_of_the_wrong_case_only() {
    let mut sink = Diagnostics::new();
    let span = Span::new(1, 4, 5);
    check(&span, "x", Case::SnakeCase, &mut sink);
    assert_eq!(sink.len(), 0);
    check(&span, "X", Case::SnakeCase, &mut sink);
    let items = own_diagnostics(&sink);
    assert_eq!(items.len(), 1);
    assert_eq!(items[0].severity, Severity::Warning);
    assert_eq!(items[0].message, "wrong case system used");
    assert_eq!(items[0].notes.len(), 0);
    assert_eq!(items[0].labels.len(), 1);
    assert_eq!(items[0].labels[0].style, LabelStyle::Primary);
    assert_eq!(items[0].labels[0].span, span);
    assert_eq!(items[0].labels[0].message, "expected snake case, found pascal case");
}

#[test]
fn check_ident_goes_by_the_text_of_the_ident() {
    let mut sink = Diagnostics::new();
    let span = Span::new(0, 0, 5);
    check_ident(&Spanned::new(Ident::Named("point".to_string()), span), Case::PascalCase, &mut sink);
    check_ident(&Spanned::new(Ident::Named("Point".to_string()), span), Case::PascalCase, &mut sink);
    check_ident(&Spanned::new(Ident::Resolved(4), span), Case::SnakeCase, &mut sink);
    let items = own_diagnostics(&sink);
    assert_eq!(items.len(), 1);
    assert_eq!(items[0].labels[0].message, "expected pascal case, found snake or camel case");
}

#[test]
fn cases_have_names() {
    assert_eq!(Case::PascalCase.to_string(), "pascal case");
    assert_eq!(Case::SnakeCase.to_string(), "snake case");
    assert_eq!(Case::SnakeCamel.to_string(), "snake or camel case");
    assert_eq!(Case::CamelCase.to_string(), "camel case");
    assert_eq!(Case::UpperSnakeCase.to_string(), "upper snake case");
}
