use frontend::common::ident::Ident;
use frontend::common::span::{Span, Spanned};
use frontend::common::types::{BuiltIn, Type};

fn integer(bits: u32, signed: bool) -> Option<BuiltIn> {
    Some(BuiltIn::Integer { bits: Some(bits), signed })
}

#[test]
fn from_name_reads_the_built_in_names() {
    assert_eq!(BuiltIn::from_name("void"), Some(BuiltIn::Void));
    assert_eq!(BuiltIn::from_name("bool"), integer(1, false));
    assert_eq!(BuiltIn::from_name("i32"), integer(32, true));
    assert_eq!(BuiltIn::from_name("u8"), integer(8, false));
    assert_eq!(BuiltIn::from_name("usize"), Some(BuiltIn::Integer { bits: None, signed: false }));
    assert_eq!(BuiltIn::from_name("isize"), Some(BuiltIn::Integer { bits: None, signed: true }));
    assert_eq!(BuiltIn::from_name("f16"), Some(BuiltIn::Float { bits: 16 }));
    assert_eq!(BuiltIn::from_name("f128"), Some(BuiltIn::Float { bits: 128 }));
}

#[test]
fn from_name_checks_the_widths() {
    assert_eq!(BuiltIn::from_name("i0"), None);
    assert_eq!(BuiltIn::from_name("i1"), integer(1, true));
    assert_eq!(BuiltIn::from_name("u8388607"), integer(8388607, false));
    assert_eq!(BuiltIn::from_name("u8388608"), None);
    assert_eq!(BuiltIn::from_name("i99999999999"), None);
    assert_eq!(BuiltIn::from_name("f8"), None);
    assert_eq!(BuiltIn::from_name("f200"), None);
    assert_eq!(BuiltIn::from_name("f129"), None);
}

#[test]
fn from_name_rejects_other_names() {
    assert_eq!(BuiltIn::from_name(""), None);
    assert_eq!(BuiltIn::from_name("i"), None);
    assert_eq!(BuiltIn::from_name("x32"), None);
    assert_eq!(BuiltIn::from_name("xsize"), None);
    assert_eq!(BuiltIn::from_name("i3x"), None);
    assert_eq!(BuiltIn::from_name("size"), None);
    assert_eq!(BuiltIn::from_name("int"), None);
    assert_eq!(BuiltIn::from_name("Void"), None);
    assert_eq!(BuiltIn::from_name("i-32"), None);
}

#[test]
fn from_name_takes_a_plus_sign_as_the_number_parser_does() {
    assert_eq!(BuiltIn::from_name("i+32"), integer(32, true));
    assert_eq!(BuiltIn::from_name("i+"), None);
}

#[test]
fn is_valid_knows_the_widths_of_the_language() {
    assert!(BuiltIn::Void.is_valid());
    assert!(BuiltIn::Integer { bits: None, signed: true }.is_valid());
    assert!(BuiltIn::Integer { bits: Some(1), signed: false }.is_valid());
    assert!(!BuiltIn::Integer { bits: Some(0), signed: false }.is_valid());
    assert!(!BuiltIn::Integer { bits: Some(1 << 23), signed: false }.is_valid());
    assert!(BuiltIn::Integer { bits: Some((1 << 23) - 1), signed: false }.is_valid());
    for bits in [16u8, 32, 64, 128] {
        assert!(BuiltIn::Float { bits }.is_valid());
    }
    assert!(!BuiltIn::Float { bits: 8 }.is_valid());
    assert!(!BuiltIn::Float { bits: 80 }.is_valid());
}

#[test]
fn width_is_the_number_of_bits() {
    assert_eq!(BuiltIn::Void.width(), Some(0));
    assert_eq!(BuiltIn::Float { bits: 64 }.width(), Some(64));
    assert_eq!(BuiltIn::Integer { bits: Some(24), signed: true }.width(), Some(24));
    assert_eq!(BuiltIn::Integer { bits: None, signed: true }.width(), None);
}

#[test]
fn built_in_types_are_written_by_their_names() {
    assert_eq!(BuiltIn::Void.to_string(), "void");
    assert_eq!(BuiltIn::Float { bits: 32 }.to_string(), "f32");
    assert_eq!(BuiltIn::Integer { bits: Some(24), signed: true }.to_string(), "i24");
    assert_eq!(BuiltIn::Integer { bits: None, signed: false }.to_string(), "usize");
}

#[test]
fn types_are_written_as_in_source() {
    assert_eq!(Type::Inferred.to_string(), "_");
    assert_eq!(Type::User(Ident::Named("Point".to_string())).to_string(), "Point");
    assert_eq!(Type::BuiltIn(BuiltIn::Void).to_string(), "void");
    let generic = Type::Generic(
        Box::new(Type::User(Ident::Named("Map".to_string()))),
        vec![Type::BuiltIn(BuiltIn::Float { bits: 64 }), Type::Inferred],
    );
    assert_eq!(generic.to_string(), "Map<f64, _>");
    let bare = Type::Generic(Box::new(Type::User(Ident::Resolved(7))), vec![]);
    assert_eq!(bare.to_string(), "@7");
}

#[test]
fn clone_of_a_type_is_the_same_type() {
    let generic = Type::Generic(
        Box::new(Type::User(Ident::Named("Map".to_string()))),
        vec![Type::BuiltIn(BuiltIn::Float { bits: 64 }), Type::Inferred],
    );
    assert_eq!(generic.clone(), generic);
}

#[test]
fn a_type_without_a_name_gets_the_wildcard() {
    let ty = Spanned::new(Type::BuiltIn(BuiltIn::Void), Span::new(0, 3, 7));
    let typed = ty.add_discarded_ident();
    assert_eq!(typed.ident, Spanned::new(Ident::Discarded, Span::new(0, 3, 7)));
    assert_eq!(typed.ty, Spanned::new(Type::BuiltIn(BuiltIn::Void), Span::new(0, 3, 7)));
    assert_eq!(typed.ident_str(), "_");
    assert_eq!(typed.to_string(), "void _");
}
