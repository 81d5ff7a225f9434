//! Functions and their signatures.

use crate::common::ident::{Ident, IdentView};
use crate::common::span::Spanned;
use crate::common::typed_ident::{TypedIdent, TypedIdentView};
use crate::common::types::{Type, TypeView};
use vstd::prelude::*;

verus! {

/// The attributes a function may state after its arguments.
#[derive(Debug, Clone, Copy, PartialEq, Eq, Hash, Structural)]
pub struct Attribs {
    pub is_pure: bool,
    pub is_unsafe: bool,
}

impl Default for Attribs {
    fn default() -> (res: Self)
        ensures
            !res.is_pure,
            !res.is_unsafe,
    {
        Attribs { is_pure: false, is_unsafe: false }
    }
}

/// Where the body of a function comes from.
#[derive(Debug, Clone, Copy, PartialEq, Eq, Hash, Structural)]
pub enum Linkage {
    /// Declared here, defined elsewhere.
    External,
    /// Defined here.
    Default,
}

impl Default for Linkage {
    fn default() -> (res: Self)
        ensures
            res == Linkage::Default,
    {
        Linkage::Default
    }
}

/// Everything of a function but its name and body.
#[derive(Debug, PartialEq, Eq)]
pub struct Signature {
    pub attribs: Spanned<Attribs>,
    pub linkage: Spanned<Linkage>,
    pub return_ty: Spanned<Type>,
    pub args: Spanned<Vec<Spanned<TypedIdent>>>,
    pub generics: Spanned<Vec<Spanned<Ident>>>,
}

/// What a [`Signature`] stands for in specifications.
pub ghost struct SignatureView {
    pub attribs: Spanned<Attribs>,
    pub linkage: Spanned<Linkage>,
    pub return_ty: Spanned<TypeView>,
    pub args: Spanned<Seq<Spanned<TypedIdentView>>>,
    pub generics: Spanned<Seq<Spanned<IdentView>>>,
}

/// The views of a list of identifiers with their spans.
pub open spec fn spanned_idents_view(v: Seq<Spanned<Ident>>) -> Seq<Spanned<IdentView>> {
    Seq::new(v.len(), |i: int| Spanned { span: v[i].span, value: v[i].value@ })
}

/// The views of a list of typed identifiers with their spans.
pub open spec fn spanned_typed_idents_view(v: Seq<Spanned<TypedIdent>>) -> Seq<
    Spanned<TypedIdentView>,
> {
    Seq::new(v.len(), |i: int| Spanned { span: v[i].span, value: v[i].value@ })
}

/// The views of a list of types with their spans.
pub open spec fn spanned_types_view(v: Seq<Spanned<Type>>) -> Seq<Spanned<TypeView>> {
    Seq::new(v.len(), |i: int| Spanned { span: v[i].span, value: v[i].value@ })
}

impl View for Signature {
    type V = SignatureView;

    open spec fn view(&self) -> SignatureView {
        SignatureView {
            attribs: self.attribs,
            linkage: self.linkage,
            return_ty: Spanned { span: self.return_ty.span, value: self.return_ty.value@ },
            args: Spanned {
                span: self.args.span,
                value: spanned_typed_idents_view(self.args.value@),
            },
            generics: Spanned {
                span: self.generics.span,
                value: spanned_idents_view(self.generics.value@),
            },
        }
    }
}

/// A copy of a list of identifiers with their spans.
pub fn clone_spanned_idents(v: &Vec<Spanned<Ident>>) -> (res: Vec<Spanned<Ident>>)
    ensures
        spanned_idents_view(res@) == spanned_idents_view(v@),
{
    let mut out: Vec<Spanned<Ident>> = Vec::new();
    let mut i: usize = 0;
    while i < v.len()
        invariant
            i <= v.len(),
            out.len() == i,
            forall|j: int|
                0 <= j < i ==> out[j].span == v[j].span && (#[trigger] out[j]).value@
                    == v[j].value@,
        decreases v.len() - i,
    {
        out.push(Spanned { span: v[i].span, value: v[i].value.clone() });
        i += 1;
    }
    assert(spanned_idents_view(out@) =~= spanned_idents_view(v@));
    out
}

/// A copy of a list of typed identifiers with their spans.
pub fn clone_spanned_typed_idents(v: &Vec<Spanned<TypedIdent>>) -> (res: Vec<Spanned<TypedIdent>>)
    ensures
        spanned_typed_idents_view(res@) == spanned_typed_idents_view(v@),
{
    let mut out: Vec<Spanned<TypedIdent>> = Vec::new();
    let mut i: usize = 0;
    while i < v.len()
        invariant
            i <= v.len(),
            out.len() == i,
            forall|j: int|
                0 <= j < i ==> out[j].span == v[j].span && (#[trigger] out[j]).value@
                    == v[j].value@,
        decreases v.len() - i,
    {
        out.push(Spanned { span: v[i].span, value: v[i].value.clone() });
        i += 1;
    }
    assert(spanned_typed_idents_view(out@) =~= spanned_typed_idents_view(v@));
    out
}

/// A copy of a list of types with their spans.
pub fn clone_spanned_types(v: &Vec<Spanned<Type>>) -> (res: Vec<Spanned<Type>>)
    ensures
        spanned_types_view(res@) == spanned_types_view(v@),
{
    let mut out: Vec<Spanned<Type>> = Vec::new();
    let mut i: usize = 0;
    while i < v.len()
        invariant
            i <= v.len(),
            out.len() == i,
            forall|j: int|
                0 <= j < i ==> out[j].span == v[j].span && (#[trigger] out[j]).value@
                    == v[j].value@,
        decreases v.len() - i,
    {
        out.push(Spanned { span: v[i].span, value: v[i].value.clone() });
        i += 1;
    }
    assert(spanned_types_view(out@) =~= spanned_types_view(v@));
    out
}

impl Clone for Signature {
    fn clone(&self) -> (res: Self)
        ensures
            res@ == self@,
    {
        Signature {
            attribs: self.attribs,
            linkage: self.linkage,
            return_ty: Spanned { span: self.return_ty.span, value: self.return_ty.value.clone() },
            args: Spanned {
                span: self.args.span,
                value: clone_spanned_typed_idents(&self.args.value),
            },
            generics: Spanned {
                span: self.generics.span,
                value: clone_spanned_idents(&self.generics.value),
            },
        }
    }
}

/// A function: name, signature and, unless it is only declared, body.
#[derive(Debug, PartialEq, Eq)]
pub struct Func<Sc> {
    pub id: Spanned<Ident>,
    pub signature: Signature,
    pub body: Option<Spanned<Sc>>,
}

} // verus!
