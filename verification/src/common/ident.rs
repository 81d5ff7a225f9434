//! Names of variables, functions and types.

use vstd::prelude::*;
use vstd::string::StringExecFns;

verus! {

/// The number the resolver gives to a binding site.
pub type Id = usize;

/// A name given to a variable, a function or a type.
#[derive(Debug, Hash, PartialEq, Eq)]
pub enum Ident {
    /// A plain source name.
    Named(String),
    /// A namespaced name.
    Qualified(Vec<Ident>),
    /// The wildcard `_`.
    Discarded,
    /// A name the resolver has replaced by its number.
    Resolved(Id),
}

/// What an [`Ident`] stands for in specifications.
pub ghost enum IdentView {
    Named(Seq<char>),
    Qualified(Seq<IdentView>),
    Discarded,
    Resolved(Id),
}

/// The views of a sequence of identifiers, one by one.
pub open spec fn idents_view(parts: Seq<Ident>) -> Seq<IdentView>
    decreases parts, 0nat,
{
    if parts.len() == 0 {
        Seq::empty()
    } else {
        idents_view(parts.drop_last()).push(ident_view(parts.last()))
    }
}

/// The view of one identifier.
pub open spec fn ident_view(ident: Ident) -> IdentView
    decreases ident, 1nat,
{
    match ident {
        Ident::Named(s) => IdentView::Named(s@),
        Ident::Qualified(parts) => IdentView::Qualified(idents_view(parts@)),
        Ident::Discarded => IdentView::Discarded,
        Ident::Resolved(id) => IdentView::Resolved(id),
    }
}

impl View for Ident {
    type V = IdentView;

    open spec fn view(&self) -> IdentView {
        ident_view(*self)
    }
}

/// [`idents_view`] keeps the length and views each part.
pub proof fn lemma_idents_view(parts: Seq<Ident>)
    ensures
        idents_view(parts).len() == parts.len(),
        forall|j: int| 0 <= j < parts.len() ==> #[trigger] idents_view(parts)[j] == parts[j]@,
    decreases parts.len(),
{
    if parts.len() > 0 {
        lemma_idents_view(parts.drop_last());
    }
}

/// The view of a qualified name, part by part.
pub proof fn lemma_qualified_view(ident: &Ident)
    requires
        *ident is Qualified,
    ensures
        ident@ is Qualified,
        ident@->Qualified_0.len() == ident->Qualified_0.len(),
        forall|j: int|
            0 <= j < ident->Qualified_0.len() ==> #[trigger] ident@->Qualified_0[j]
                == ident->Qualified_0[j]@,
{
    lemma_idents_view(ident->Qualified_0@);
}

impl Clone for Ident {
    fn clone(&self) -> (res: Self)
        ensures
            res@ == self@,
        decreases self,
    {
        match self {
            Ident::Named(s) => Ident::Named(s.clone()),
            Ident::Qualified(parts) => {
                let mut out: Vec<Ident> = Vec::new();
                let mut i: usize = 0;
                while i < parts.len()
                    invariant
                        forall|j: int| 0 <= j < parts.len() ==> decreases_to!(self => #[trigger] parts[j]),
                        i <= parts.len(),
                        out.len() == i,
                        forall|j: int| 0 <= j < i ==> out[j]@ == parts[j]@,
                    decreases parts.len() - i,
                {
                    out.push(parts[i].clone());
                    i += 1;
                }
                let res = Ident::Qualified(out);
                proof {
                    lemma_qualified_view(&res);
                    lemma_qualified_view(self);
                    assert(res@->Qualified_0 =~= self@->Qualified_0);
                }
                res
            }
            Ident::Discarded => Ident::Discarded,
            Ident::Resolved(id) => Ident::Resolved(*id),
        }
    }
}

} // verus!

verus! {

/// The text of a qualified name: its parts with `::` between them.
pub open spec fn path_text(parts: Seq<IdentView>) -> Seq<char>
    decreases parts, 0nat,
{
    if parts.len() == 0 {
        Seq::empty()
    } else if parts.len() == 1 {
        ident_text(parts[0])
    } else {
        path_text(parts.drop_last()) + "::"@ + ident_text(parts.last())
    }
}

/// How an identifier is written in messages.
pub open spec fn ident_text(ident: IdentView) -> Seq<char>
    decreases ident, 1nat,
{
    match ident {
        IdentView::Named(name) => name,
        IdentView::Qualified(parts) => path_text(parts),
        IdentView::Discarded => "_"@,
        IdentView::Resolved(id) => "@"@ + crate::common::text::decimal_text(id as nat),
    }
}

impl Ident {
    /// Whether this is the wildcard.
    pub fn is_discarded(&self) -> (b: bool)
        ensures
            b == (self@ is Discarded),
            b == (*self is Discarded),
    {
        match self {
            Ident::Discarded => true,
            _ => false,
        }
    }

    /// The number of a resolved identifier.
    pub fn id(&self) -> (id: Id)
        requires
            *self is Resolved,
        ensures
            *self == Ident::Resolved(id),
    {
        match self {
            Ident::Resolved(x) => *x,
            _ => 0,
        }
    }

    /// Whether two identifiers are the same name.
    pub fn same(&self, other: &Ident) -> (b: bool)
        ensures
            b == (self@ == other@),
        decreases self,
    {
        proof {
            if *self is Qualified {
                lemma_qualified_view(self);
            }
            if *other is Qualified {
                lemma_qualified_view(other);
            }
        }
        match self {
            Ident::Named(a) => match other {
                Ident::Named(b) => *a == *b,
                _ => false,
            },
            Ident::Qualified(a) => match other {
                Ident::Qualified(b) => {
                    if a.len() != b.len() {
                        return false;
                    }
                    let mut i: usize = 0;
                    while i < a.len()
                        invariant
                            forall|j: int|
                                0 <= j < a.len() ==> decreases_to!(self => #[trigger] a[j]),
                            a.len() == b.len(),
                            i <= a.len(),
                            forall|j: int| 0 <= j < i ==> a[j]@ == b[j]@,
                            self@ is Qualified,
                            other@ is Qualified,
                            self@->Qualified_0.len() == a.len(),
                            other@->Qualified_0.len() == b.len(),
                            forall|j: int|
                                0 <= j < a.len() ==> #[trigger] self@->Qualified_0[j] == a[j]@,
                            forall|j: int|
                                0 <= j < b.len() ==> #[trigger] other@->Qualified_0[j] == b[j]@,
                        decreases a.len() - i,
                    {
                        if !a[i].same(&b[i]) {
                            assert(self@->Qualified_0[i as int] != other@->Qualified_0[i as int]);
                            return false;
                        }
                        i += 1;
                    }
                    assert(self@->Qualified_0 =~= other@->Qualified_0);
                    true
                },
                _ => false,
            },
            Ident::Discarded => match other {
                Ident::Discarded => true,
                _ => false,
            },
            Ident::Resolved(a) => match other {
                Ident::Resolved(b) => *a == *b,
                _ => false,
            },
        }
    }

    /// The identifier as messages write it: a name as it is, the parts of
    /// a qualified name with `::` between them, `_` for the wildcard, `@`
    /// and the number for a resolved one.
    pub fn to_string(&self) -> (s: String)
        ensures
            s@ == ident_text(self@),
        decreases self,
    {
        match self {
            Ident::Named(name) => name.clone(),
            Ident::Qualified(parts) => {
                let mut acc = String::new();
                let mut i: usize = 0;
                proof {
                    lemma_qualified_view(self);
                }
                assert(self@->Qualified_0.take(0) =~= Seq::<IdentView>::empty());
                while i < parts.len()
                    invariant
                        forall|j: int|
                            0 <= j < parts.len() ==> decreases_to!(self => #[trigger] parts[j]),
                        i <= parts.len(),
                        self@->Qualified_0.len() == parts.len(),
                        forall|j: int| 0 <= j < parts.len() ==> self@->Qualified_0[j] == parts[j]@,
                        acc@ == path_text(self@->Qualified_0.take(i as int)),
                    decreases parts.len() - i,
                {
                    let part = parts[i].to_string();
                    proof {
                        let next = self@->Qualified_0.take(i + 1);
                        assert(next.drop_last() =~= self@->Qualified_0.take(i as int));
                        assert(next.last() == parts[i as int]@);
                        if i > 0 {
                            assert(path_text(next) == path_text(next.drop_last()) + "::"@
                                + ident_text(next.last()));
                        } else {
                            assert(path_text(next) == ident_text(next[0]));
                            assert(acc@ + part@ =~= part@);
                        }
                    }
                    if i > 0 {
                        acc.append("::");
                    }
                    acc.append(part.as_str());
                    i += 1;
                }
                assert(self@->Qualified_0.take(i as int) =~= self@->Qualified_0);
                acc
            },
            Ident::Discarded => String::from_str("_"),
            Ident::Resolved(id) => {
                let mut s = String::from_str("@");
                let digits = crate::common::text::decimal(*id);
                s.append(digits.as_str());
                s
            },
        }
    }
}

} // verus!

verus! {

impl crate::common::span::Spanned<Ident> {
    /// The declaration of this name with a type left to inference, at the
    /// span of the name.
    pub fn infer_type(self) -> (res: crate::common::span::Spanned<
        crate::common::typed_ident::TypedIdent,
    >)
        ensures
            res.span == self.span,
            res.value.ty.span == self.span,
            res.value.ty.value == crate::common::types::Type::Inferred,
            res.value.ident == self,
    {
        let span = self.span;
        crate::common::span::Spanned {
            span,
            value: crate::common::typed_ident::TypedIdent {
                ty: crate::common::span::Spanned {
                    span,
                    value: crate::common::types::Type::Inferred,
                },
                ident: self,
            },
        }
    }
}

} // verus!
