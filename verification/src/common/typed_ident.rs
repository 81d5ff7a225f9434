//! An identifier together with its type.

use crate::common::ident::{Ident, IdentView};
use crate::common::span::Spanned;
use crate::common::types::{Type, TypeView};
use vstd::prelude::*;

verus! {

/// A type and the name declared with it.
#[derive(Debug, PartialEq, Eq)]
pub struct TypedIdent {
    pub ty: Spanned<Type>,
    pub ident: Spanned<Ident>,
}

/// What a [`TypedIdent`] stands for in specifications.
pub ghost struct TypedIdentView {
    pub ty: Spanned<TypeView>,
    pub ident: Spanned<IdentView>,
}

impl View for TypedIdent {
    type V = TypedIdentView;

    open spec fn view(&self) -> TypedIdentView {
        TypedIdentView {
            ty: Spanned { span: self.ty.span, value: self.ty.value@ },
            ident: Spanned { span: self.ident.span, value: self.ident.value@ },
        }
    }
}

impl Clone for TypedIdent {
    fn clone(&self) -> (res: Self)
        ensures
            res@ == self@,
    {
        TypedIdent {
            ty: Spanned { span: self.ty.span, value: self.ty.value.clone() },
            ident: Spanned { span: self.ident.span, value: self.ident.value.clone() },
        }
    }
}

impl TypedIdent {
    /// The name as messages write it.
    pub fn ident_str(&self) -> (s: String)
        ensures
            s@ == crate::common::ident::ident_text(self.ident.value@),
    {
        self.ident.value.to_string()
    }
}

impl Spanned<TypedIdent> {
    /// The name.
    pub fn ident(&self) -> (ident: &Ident)
        ensures
            *ident == self.value.ident.value,
    {
        &self.value.ident.value
    }

    /// The type.
    pub fn ty(&self) -> (ty: &Type)
        ensures
            *ty == self.value.ty.value,
    {
        &self.value.ty.value
    }
}

} // verus!
