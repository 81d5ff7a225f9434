//! Case conventions of identifiers.

use crate::common::diagnostics::{invalid_case, invalid_case_diagnostic, Diagnostics};
use crate::common::ident::{ident_text, Ident};
use crate::common::span::{Span, Spanned};
use vstd::prelude::*;
use vstd::string::StrSliceExecFns;

verus! {

/// The ways of writing a name that the checker tells apart.
#[derive(Debug, Clone, Copy, PartialEq, Eq, Hash, Structural)]
pub enum Case {
    PascalCase,
    SnakeCase,
    SnakeCamel,
    CamelCase,
    UpperSnakeCase,
}

impl Case {
    /// How messages name the case.
    pub open spec fn text_spec(self) -> Seq<char> {
        match self {
            Case::PascalCase => "pascal case"@,
            Case::SnakeCase => "snake case"@,
            Case::SnakeCamel => "snake or camel case"@,
            Case::CamelCase => "camel case"@,
            Case::UpperSnakeCase => "upper snake case"@,
        }
    }

    /// How messages name the case.
    pub fn text(&self) -> (s: &'static str)
        ensures
            s@ == self.text_spec(),
    {
        match self {
            Case::PascalCase => "pascal case",
            Case::SnakeCase => "snake case",
            Case::SnakeCamel => "snake or camel case",
            Case::CamelCase => "camel case",
            Case::UpperSnakeCase => "upper snake case",
        }
    }

    /// The name of the case, as a string of its own.
    pub fn to_string(&self) -> (s: String)
        ensures
            s@ == self.text_spec(),
    {
        self.text().to_owned()
    }
}

/// Whether Unicode counts `c` as alphabetic.
pub uninterp spec fn char_is_alphabetic(c: char) -> bool;

/// Whether Unicode counts `c` as lowercase.
pub uninterp spec fn char_is_lowercase(c: char) -> bool;

/// Whether Unicode counts `c` as uppercase.
pub uninterp spec fn char_is_uppercase(c: char) -> bool;

/// `char::is_alphabetic` decides by the Unicode tables; its result is named,
/// not stated.
pub assume_specification[ char::is_alphabetic ](c: char) -> (b: bool)
    ensures
        b == char_is_alphabetic(c),
;

/// `char::is_lowercase` decides by the Unicode tables; its result is named,
/// not stated.
pub assume_specification[ char::is_lowercase ](c: char) -> (b: bool)
    ensures
        b == char_is_lowercase(c),
;

/// `char::is_uppercase` decides by the Unicode tables; its result is named,
/// not stated.
pub assume_specification[ char::is_uppercase ](c: char) -> (b: bool)
    ensures
        b == char_is_uppercase(c),
;

/// A lowercase letter.
pub open spec fn lower_letter(c: char) -> bool {
    char_is_alphabetic(c) && char_is_lowercase(c)
}

/// An uppercase letter.
pub open spec fn upper_letter(c: char) -> bool {
    char_is_alphabetic(c) && char_is_uppercase(c)
}

/// No lowercase letter occurs in `s`.
pub open spec fn all_uppercase(s: Seq<char>) -> bool {
    forall|i: int| 0 <= i < s.len() ==> !lower_letter(#[trigger] s[i])
}

/// Some uppercase letter occurs in `s`.
pub open spec fn some_uppercase(s: Seq<char>) -> bool {
    exists|i: int| 0 <= i < s.len() && upper_letter(#[trigger] s[i])
}

/// The first character of `s` is uppercase.
pub open spec fn starts_uppercase(s: Seq<char>) -> bool {
    s.len() > 0 && char_is_uppercase(s[0])
}

/// An underscore occurs in `s`.
pub open spec fn has_underscore(s: Seq<char>) -> bool {
    exists|i: int| 0 <= i < s.len() && #[trigger] s[i] == '_'
}

/// The case that `name` is found to be written in, when `wanted` was asked
/// for. Only the cases that can be asked for are told apart from their
/// neighbours: pascal, snake and upper snake case.
pub open spec fn found_case(name: Seq<char>, wanted: Case) -> Case {
    match wanted {
        Case::PascalCase => if has_underscore(name) {
            if all_uppercase(name) {
                Case::UpperSnakeCase
            } else {
                Case::SnakeCase
            }
        } else if !starts_uppercase(name) {
            if some_uppercase(name) {
                Case::CamelCase
            } else {
                Case::SnakeCamel
            }
        } else {
            Case::PascalCase
        },
        Case::SnakeCase => if some_uppercase(name) {
            if has_underscore(name) && !all_uppercase(name) {
                Case::SnakeCase
            } else if has_underscore(name) {
                Case::UpperSnakeCase
            } else if starts_uppercase(name) {
                Case::PascalCase
            } else {
                Case::CamelCase
            }
        } else {
            Case::SnakeCase
        },
        _ => if all_uppercase(name) {
            Case::UpperSnakeCase
        } else if has_underscore(name) {
            Case::SnakeCase
        } else {
            Case::PascalCase
        },
    }
}

/// Whether `wanted` is a case the checker can ask for.
pub open spec fn can_want(wanted: Case) -> bool {
    wanted == Case::PascalCase || wanted == Case::SnakeCase || wanted == Case::UpperSnakeCase
}

/// Whether no lowercase letter occurs in `str`.
pub fn is_uppercase(str: &str) -> (b: bool)
    ensures
        b == all_uppercase(str@),
{
    let n = str.unicode_len();
    let mut i: usize = 0;
    while i < n
        invariant
            n == str@.len(),
            i <= n,
            forall|j: int| 0 <= j < i ==> !lower_letter(#[trigger] str@[j]),
        decreases n - i,
    {
        let c = str.get_char(i);
        if c.is_alphabetic() && c.is_lowercase() {
            return false;
        }
        i += 1;
    }
    true
}

/// Whether some uppercase letter occurs in `str`.
pub fn has_uppercase(str: &str) -> (b: bool)
    ensures
        b == some_uppercase(str@),
{
    let n = str.unicode_len();
    let mut i: usize = 0;
    while i < n
        invariant
            n == str@.len(),
            i <= n,
            forall|j: int| 0 <= j < i ==> !upper_letter(#[trigger] str@[j]),
        decreases n - i,
    {
        let c = str.get_char(i);
        if c.is_alphabetic() && c.is_uppercase() {
            return true;
        }
        i += 1;
    }
    false
}

/// Whether the first character of `str` is uppercase; an empty text does
/// not begin with anything.
pub fn begins_with_uppercase(str: &str) -> (b: bool)
    ensures
        b == starts_uppercase(str@),
{
    if str.unicode_len() == 0 {
        false
    } else {
        str.get_char(0).is_uppercase()
    }
}

/// Whether an underscore occurs in `str`.
pub fn contains_underscore(str: &str) -> (b: bool)
    ensures
        b == has_underscore(str@),
{
    let n = str.unicode_len();
    let mut i: usize = 0;
    while i < n
        invariant
            n == str@.len(),
            i <= n,
            forall|j: int| 0 <= j < i ==> #[trigger] str@[j] != '_',
        decreases n - i,
    {
        if str.get_char(i) == '_' {
            return true;
        }
        i += 1;
    }
    false
}

/// The case `name` is written in, when `wanted` was asked for.
pub fn detect(name: &str, wanted: Case) -> (found: Case)
    ensures
        found == found_case(name@, wanted),
{
    match wanted {
        Case::PascalCase => {
            if contains_underscore(name) {
                if is_uppercase(name) {
                    Case::UpperSnakeCase
                } else {
                    Case::SnakeCase
                }
            } else if !begins_with_uppercase(name) {
                if has_uppercase(name) {
                    Case::CamelCase
                } else {
                    Case::SnakeCamel
                }
            } else {
                Case::PascalCase
            }
        },
        Case::SnakeCase => {
            if has_uppercase(name) {
                let underscore = contains_underscore(name);
                if underscore && !is_uppercase(name) {
                    Case::SnakeCase
                } else if underscore {
                    Case::UpperSnakeCase
                } else if begins_with_uppercase(name) {
                    Case::PascalCase
                } else {
                    Case::CamelCase
                }
            } else {
                Case::SnakeCase
            }
        },
        _ => {
            if is_uppercase(name) {
                Case::UpperSnakeCase
            } else if contains_underscore(name) {
                Case::SnakeCase
            } else {
                Case::PascalCase
            }
        },
    }
}

/// Warns if `name` is not written in the case `wanted`.
pub fn check(span: &Span, name: &str, wanted: Case, sink: &mut Diagnostics)
    requires
        can_want(wanted),
    ensures
        final(sink)@ == if found_case(name@, wanted) == wanted {
            old(sink)@
        } else {
            old(sink)@.push(invalid_case_diagnostic(*span, wanted, found_case(name@, wanted)))
        },
{
    let found = detect(name, wanted);
    if found != wanted {
        invalid_case(sink, *span, wanted, found);
    }
}

/// Warns if the identifier is not written in the case `wanted`.
pub fn check_ident(ident: &Spanned<Ident>, wanted: Case, sink: &mut Diagnostics)
    requires
        can_want(wanted),
    ensures
        final(sink)@ == if found_case(ident_text(ident.value@), wanted) == wanted {
            old(sink)@
        } else {
            old(sink)@.push(
                invalid_case_diagnostic(
                    ident.span,
                    wanted,
                    found_case(ident_text(ident.value@), wanted),
                ),
            )
        },
{
    let name = ident.value.to_string();
    check(&ident.span, name.as_str(), wanted, sink);
}

} // verus!
