//! How the leaves of the tree are written.

use crate::common::func::{Attribs, Linkage, Signature};
use crate::common::ident::ident_text;
use crate::common::join::{comma_wrapped, Join};
use crate::common::span::{Span, Spanned};
use crate::common::text::{decimal, decimal_text, texts};
use crate::common::typed_ident::TypedIdent;
use crate::common::types::{Type, TypeView};
use crate::infer::type_info::{builtin_text, number_type_text};
use crate::lexer::{NumberLiteral, NumberLiteralKind, NumberLiteralView, Token};
use vstd::prelude::*;
use vstd::string::StringExecFns;

verus! {

/// How a span is written.
pub open spec fn span_text(span: Span) -> Seq<char> {
    "file id "@ + decimal_text(span.file_id as nat) + " @ "@ + decimal_text(span.start as nat)
        + ".."@ + decimal_text(span.end as nat)
}

impl Span {
    /// The span as `file id 0 @ 3..7`.
    pub fn to_string(&self) -> (s: String)
        ensures
            s@ == span_text(*self),
    {
        let mut s = String::from_str("file id ");
        let file = decimal(self.file_id);
        s.append(file.as_str());
        s.append(" @ ");
        let start = decimal(self.start);
        s.append(start.as_str());
        s.append("..");
        let end = decimal(self.end);
        s.append(end.as_str());
        s
    }
}

/// How types are written, one by one.
pub open spec fn types_texts(args: Seq<TypeView>) -> Seq<Seq<char>>
    decreases args, 0nat,
{
    if args.len() == 0 {
        Seq::empty()
    } else {
        types_texts(args.drop_last()).push(type_text(args.last()))
    }
}

/// How a type is written: a name as it is, a built-in type by its name, a
/// type with generics by its base and the generics in angle brackets, and
/// a type left to inference as `_`.
pub open spec fn type_text(ty: TypeView) -> Seq<char>
    decreases ty, 1nat,
{
    match ty {
        TypeView::User(ident) => ident_text(ident),
        TypeView::BuiltIn(b) => builtin_text(b),
        TypeView::Generic(base, args) => type_text(*base) + comma_wrapped(
            types_texts(args),
            "<"@,
            ">"@,
        ),
        TypeView::Inferred => "_"@,
    }
}

impl Type {
    /// The type as the source text would write it.
    pub fn to_string(&self) -> (s: String)
        ensures
            s@ == type_text(self@),
        decreases self,
    {
        match self {
            Type::User(ident) => ident.to_string(),
            Type::BuiltIn(b) => b.to_string(),
            Type::Generic(base, args) => {
                let mut s = (**base).to_string();
                let mut parts: Vec<String> = Vec::new();
                let mut i: usize = 0;
                proof {
                    crate::common::types::lemma_types_view(args@);
                    assert(self@->Generic_1.take(0) =~= Seq::<TypeView>::empty());
                }
                while i < args.len()
                    invariant
                        forall|j: int|
                            0 <= j < args.len() ==> decreases_to!(self => #[trigger] args[j]),
                        i <= args.len(),
                        parts.len() == i,
                        self@ is Generic,
                        self@->Generic_1.len() == args.len(),
                        forall|j: int|
                            0 <= j < args.len() ==> #[trigger] self@->Generic_1[j] == args[j]@,
                        texts(parts@) == types_texts(self@->Generic_1.take(i as int)),
                    decreases args.len() - i,
                {
                    let part = args[i].to_string();
                    let ghost before = texts(parts@);
                    parts.push(part);
                    proof {
                        let next = self@->Generic_1.take(i + 1);
                        assert(next.drop_last() =~= self@->Generic_1.take(i as int));
                        assert(next.last() == args[i as int]@);
                        assert(texts(parts@) =~= before.push(part@));
                    }
                    i += 1;
                }
                assert(self@->Generic_1.take(i as int) =~= self@->Generic_1);
                let wrapped = parts.join_comma_wrapped("<", ">");
                s.append(wrapped.as_str());
                s
            },
            Type::Inferred => String::from_str("_"),
        }
    }
}

/// How a typed name is written: the type, a blank, the name.
pub open spec fn typed_ident_text(t: crate::common::typed_ident::TypedIdentView) -> Seq<char> {
    type_text(t.ty.value) + " "@ + ident_text(t.ident.value)
}

impl TypedIdent {
    /// The declaration as the source text would write it.
    pub fn to_string(&self) -> (s: String)
        ensures
            s@ == typed_ident_text(self@),
    {
        let mut s = self.ty.value.to_string();
        s.append(" ");
        let name = self.ident.value.to_string();
        s.append(name.as_str());
        s
    }
}

/// How attributes are written: each that holds, with a blank after it.
pub open spec fn attribs_text(a: Attribs) -> Seq<char> {
    (if a.is_pure {
        "pure "@
    } else {
        Seq::empty()
    }) + (if a.is_unsafe {
        "unsafe "@
    } else {
        Seq::empty()
    })
}

impl Attribs {
    /// The attributes as the source text would write them.
    pub fn to_string(&self) -> (s: String)
        ensures
            s@ == attribs_text(*self),
    {
        let mut s = String::new();
        if self.is_pure {
            s.append("pure ");
        }
        if self.is_unsafe {
            s.append("unsafe ");
        }
        assert(s@ =~= attribs_text(*self));
        s
    }
}

/// How a linkage is written: the word for outside linkage with a blank
/// after it, or nothing.
pub open spec fn linkage_text(l: Linkage) -> Seq<char> {
    match l {
        Linkage::External => seq!['e', 'x', 't', 'e', 'r', 'n', ' '],
        Linkage::Default => Seq::empty(),
    }
}

impl Linkage {
    /// The linkage as the source text would write it.
    pub fn to_string(&self) -> (s: String)
        ensures
            s@ == linkage_text(*self),
    {
        let mut s = String::new();
        match self {
            Linkage::External => {
                s.push('e');
                s.push('x');
                s.push('t');
                s.push('e');
                s.push('r');
                s.push('n');
                s.push(' ');
            },
            Linkage::Default => {},
        }
        assert(s@ =~= linkage_text(*self));
        s
    }
}

/// How the names of a list are written, one by one.
pub open spec fn idents_texts(ids: Seq<Spanned<crate::common::ident::IdentView>>) -> Seq<Seq<char>> {
    Seq::new(ids.len(), |i: int| ident_text(ids[i].value))
}

/// How the typed names of a list are written, one by one.
pub open spec fn typed_idents_texts(
    args: Seq<Spanned<crate::common::typed_ident::TypedIdentView>>,
) -> Seq<Seq<char>> {
    Seq::new(args.len(), |i: int| typed_ident_text(args[i].value))
}

/// How a signature is written: the linkage, the generic parameters in
/// angle brackets, the arguments in parentheses, the attributes, an
/// arrow and the return type.
pub open spec fn signature_text(sig: crate::common::func::SignatureView) -> Seq<char> {
    linkage_text(sig.linkage.value) + comma_wrapped(idents_texts(sig.generics.value), "<"@, ">"@)
        + comma_wrapped(typed_idents_texts(sig.args.value), "("@, ")"@) + attribs_text(
        sig.attribs.value,
    ) + " -> "@ + type_text(sig.return_ty.value)
}

impl Signature {
    /// The signature as messages write it.
    pub fn to_string(&self) -> (s: String)
        ensures
            s@ == signature_text(self@),
    {
        let mut s = self.linkage.value.to_string();
        let mut generics: Vec<String> = Vec::new();
        let mut i: usize = 0;
        while i < self.generics.value.len()
            invariant
                i <= self.generics.value.len(),
                generics.len() == i,
                forall|j: int|
                    0 <= j < i ==> (#[trigger] generics[j])@ == ident_text(
                        self.generics.value[j].value@,
                    ),
            decreases self.generics.value.len() - i,
        {
            generics.push(self.generics.value[i].value.to_string());
            i += 1;
        }
        assert(texts(generics@) =~= idents_texts(self@.generics.value));
        let g = generics.join_comma_wrapped("<", ">");
        s.append(g.as_str());
        let mut args: Vec<String> = Vec::new();
        let mut k: usize = 0;
        while k < self.args.value.len()
            invariant
                k <= self.args.value.len(),
                args.len() == k,
                forall|j: int|
                    0 <= j < k ==> (#[trigger] args[j])@ == typed_ident_text(
                        self.args.value[j].value@,
                    ),
            decreases self.args.value.len() - k,
        {
            args.push(self.args.value[k].value.to_string());
            k += 1;
        }
        assert(texts(args@) =~= typed_idents_texts(self@.args.value));
        let a = args.join_comma_wrapped("(", ")");
        s.append(a.as_str());
        let attribs = self.attribs.value.to_string();
        s.append(attribs.as_str());
        s.append(" -> ");
        let ret = self.return_ty.value.to_string();
        s.append(ret.as_str());
        s
    }
}

/// How a number literal is written: its digits, and its type in
/// parentheses if it states one.
pub open spec fn literal_text(n: NumberLiteralView) -> Seq<char> {
    n.value + (match n.ty {
        Some(t) => "("@ + number_type_text(t) + ")"@,
        None => Seq::empty(),
    })
}

impl NumberLiteral {
    /// The literal as messages write it.
    pub fn to_string(&self) -> (s: String)
        ensures
            s@ == literal_text(self@),
    {
        let mut s = self.value.clone();
        match self.ty {
            Some(t) => {
                s.append("(");
                let ty = t.to_string();
                s.append(ty.as_str());
                s.append(")");
            },
            None => {
                assert(s@ + Seq::<char>::empty() =~= s@);
            },
        }
        s
    }
}

impl NumberLiteralKind {
    /// The name of the base.
    pub open spec fn text_spec(self) -> Seq<char> {
        match self {
            NumberLiteralKind::Decimal => "Decimal"@,
            NumberLiteralKind::Binary => "Binary"@,
            NumberLiteralKind::Octal => "Octal"@,
            NumberLiteralKind::Hex => "Hex"@,
        }
    }

    /// The name of the base.
    pub fn to_string(&self) -> (s: String)
        ensures
            s@ == self.text_spec(),
    {
        match self {
            NumberLiteralKind::Decimal => String::from_str("Decimal"),
            NumberLiteralKind::Binary => String::from_str("Binary"),
            NumberLiteralKind::Octal => String::from_str("Octal"),
            NumberLiteralKind::Hex => String::from_str("Hex"),
        }
    }
}

/// How a token is written.
pub open spec fn token_text(token: Token) -> Seq<char> {
    match token {
        Token::NumberLiteral(n) => literal_text(n@),
        Token::CharLiteral(s) => s@,
        Token::StringLiteral(s) => s@,
        Token::Operator(op) => op.text_spec(),
        Token::AssignmentOp(_) => seq!['='],
        Token::Punctuation(p) => p.text_spec(),
        Token::Identifier(s) => s@,
    }
}

impl Token {
    /// The token as messages write it.
    pub fn to_string(&self) -> (s: String)
        ensures
            s@ == token_text(*self),
    {
        match self {
            Token::NumberLiteral(n) => n.to_string(),
            Token::CharLiteral(s) => s.clone(),
            Token::StringLiteral(s) => s.clone(),
            Token::Operator(op) => op.to_string(),
            Token::AssignmentOp(_) => {
                let mut s = String::new();
                s.push('=');
                assert(s@ =~= seq!['=']);
                s
            },
            Token::Punctuation(p) => p.to_string(),
            Token::Identifier(s) => s.clone(),
        }
    }
}

} // verus!
