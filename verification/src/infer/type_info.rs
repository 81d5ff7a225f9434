//! What inference knows of one type.

use crate::common::ident::Id;
use crate::common::join::{comma_wrapped, Join};
use crate::common::text::{decimal, decimal_text, texts};
use crate::common::types::BuiltIn;
use crate::infer::engine::Engine;
use crate::lexer::NumberLiteralType;
use vstd::prelude::*;
use vstd::string::StringExecFns;

verus! {

/// The handle of a type in the engine's table.
pub type TypeId = usize;

/// What is known of a type.
#[derive(Debug, PartialEq, Eq)]
pub enum TypeInfo {
    /// Nothing yet.
    Unknown,
    /// The same as another type.
    SameAs(TypeId),
    /// A type of the language.
    BuiltIn(BuiltIn),
    /// Some numeric type; the literal may have stated its family.
    Number(Option<NumberLiteralType>),
    /// A function.
    FuncSignature { return_ty: TypeId, args: Vec<TypeId>, generics: Vec<TypeId> },
    /// A generic parameter, seen from inside its function: it stays what it
    /// is.
    Generic(Id),
    /// A generic parameter, seen from outside: it is to be found.
    UnknownGeneric(Id),
    /// A type whose inference failed; it takes part in nothing further.
    Bottom,
}

/// What a [`TypeInfo`] stands for in specifications.
pub ghost enum TypeInfoView {
    Unknown,
    SameAs(TypeId),
    BuiltIn(BuiltIn),
    Number(Option<NumberLiteralType>),
    FuncSignature { return_ty: TypeId, args: Seq<TypeId>, generics: Seq<TypeId> },
    Generic(Id),
    UnknownGeneric(Id),
    Bottom,
}

impl View for TypeInfo {
    type V = TypeInfoView;

    open spec fn view(&self) -> TypeInfoView {
        match self {
            TypeInfo::Unknown => TypeInfoView::Unknown,
            TypeInfo::SameAs(id) => TypeInfoView::SameAs(*id),
            TypeInfo::BuiltIn(b) => TypeInfoView::BuiltIn(*b),
            TypeInfo::Number(n) => TypeInfoView::Number(*n),
            TypeInfo::FuncSignature { return_ty, args, generics } => TypeInfoView::FuncSignature {
                return_ty: *return_ty,
                args: args@,
                generics: generics@,
            },
            TypeInfo::Generic(id) => TypeInfoView::Generic(*id),
            TypeInfo::UnknownGeneric(id) => TypeInfoView::UnknownGeneric(*id),
            TypeInfo::Bottom => TypeInfoView::Bottom,
        }
    }
}

/// A copy of a list of handles.
pub fn copy_ids(ids: &Vec<TypeId>) -> (res: Vec<TypeId>)
    ensures
        res@ == ids@,
{
    let mut out: Vec<TypeId> = Vec::new();
    let mut i: usize = 0;
    while i < ids.len()
        invariant
            i <= ids.len(),
            out@ == ids@.take(i as int),
        decreases ids.len() - i,
    {
        out.push(ids[i]);
        assert(ids@.take(i + 1) =~= ids@.take(i as int).push(ids[i as int]));
        i += 1;
    }
    assert(ids@.take(i as int) =~= ids@);
    out
}

/// Whether two lists of handles are the same.
pub fn same_ids(a: &Vec<TypeId>, b: &Vec<TypeId>) -> (same: bool)
    ensures
        same == (a@ == b@),
{
    if a.len() != b.len() {
        return false;
    }
    let mut i: usize = 0;
    while i < a.len()
        invariant
            a.len() == b.len(),
            i <= a.len(),
            forall|j: int| 0 <= j < i ==> a[j] == b[j],
        decreases a.len() - i,
    {
        if a[i] != b[i] {
            return false;
        }
        i += 1;
    }
    assert(a@ =~= b@);
    true
}

impl Clone for TypeInfo {
    fn clone(&self) -> (res: Self)
        ensures
            res@ == self@,
    {
        match self {
            TypeInfo::Unknown => TypeInfo::Unknown,
            TypeInfo::SameAs(id) => TypeInfo::SameAs(*id),
            TypeInfo::BuiltIn(b) => TypeInfo::BuiltIn(*b),
            TypeInfo::Number(n) => TypeInfo::Number(*n),
            TypeInfo::FuncSignature { return_ty, args, generics } => TypeInfo::FuncSignature {
                return_ty: *return_ty,
                args: copy_ids(args),
                generics: copy_ids(generics),
            },
            TypeInfo::Generic(id) => TypeInfo::Generic(*id),
            TypeInfo::UnknownGeneric(id) => TypeInfo::UnknownGeneric(*id),
            TypeInfo::Bottom => TypeInfo::Bottom,
        }
    }
}

/// How a built-in type is written.
pub open spec fn builtin_text(b: BuiltIn) -> Seq<char> {
    match b {
        BuiltIn::Integer { bits, signed } => (if signed {
            "i"@
        } else {
            "u"@
        }) + (match bits {
            Some(n) => decimal_text(n as nat),
            None => "size"@,
        }),
        BuiltIn::Float { bits } => "f"@ + decimal_text(bits as nat),
        BuiltIn::Void => "void"@,
    }
}

/// How the type that a literal states is written.
pub open spec fn number_type_text(t: NumberLiteralType) -> Seq<char> {
    match t {
        NumberLiteralType::Integer { bits: Some(width), signed } => (if signed {
            "i"@
        } else {
            "u"@
        }) + (match width {
            Some(n) => decimal_text(n as nat),
            None => "size"@,
        }),
        NumberLiteralType::Integer { bits: None, signed } => if signed {
            "int"@
        } else {
            "uint"@
        },
        NumberLiteralType::Float { bits: Some(n) } => "f"@ + decimal_text(n as nat),
        NumberLiteralType::Float { bits: None } => "float"@,
    }
}

impl BuiltIn {
    /// The name of the type: `i32`, `usize`, `f64`, `void`.
    pub fn to_string(&self) -> (s: String)
        ensures
            s@ == builtin_text(*self),
    {
        match self {
            BuiltIn::Integer { bits, signed } => {
                let mut s = String::from_str(if *signed { "i" } else { "u" });
                match bits {
                    Some(n) => {
                        let digits = decimal(*n as usize);
                        s.append(digits.as_str());
                    },
                    None => {
                        s.append("size");
                    },
                }
                s
            },
            BuiltIn::Float { bits } => {
                let mut s = String::from_str("f");
                let digits = decimal(*bits as usize);
                s.append(digits.as_str());
                s
            },
            BuiltIn::Void => String::from_str("void"),
        }
    }
}

impl NumberLiteralType {
    /// The family and width as a literal's suffix states them; `int`,
    /// `uint` and `float` where it states no width.
    pub fn to_string(&self) -> (s: String)
        ensures
            s@ == number_type_text(*self),
    {
        match self {
            NumberLiteralType::Integer { bits, signed } => match bits {
                Some(width) => {
                    let mut s = String::from_str(if *signed { "i" } else { "u" });
                    match width {
                        Some(n) => {
                            let digits = decimal(*n as usize);
                            s.append(digits.as_str());
                        },
                        None => {
                            s.append("size");
                        },
                    }
                    s
                },
                None => String::from_str(if *signed { "int" } else { "uint" }),
            },
            NumberLiteralType::Float { bits } => match bits {
                Some(n) => {
                    let mut s = String::from_str("f");
                    let digits = decimal(*n as usize);
                    s.append(digits.as_str());
                    s
                },
                None => String::from_str("float"),
            },
        }
    }
}

/// How a function is written, given the texts of its parts.
pub open spec fn signature_text(generics: Seq<Seq<char>>, args: Seq<Seq<char>>, ret: Seq<char>)
    -> Seq<char> {
    "["@ + comma_wrapped(generics, "<"@, ">"@) + comma_wrapped(args, "("@, ")"@) + " -> "@ + ret
        + "]"@
}

/// How a type is written when it does not refer to another.
pub open spec fn plain_text(info: TypeInfoView) -> Seq<char> {
    match info {
        TypeInfoView::Unknown => "?"@,
        TypeInfoView::BuiltIn(b) => builtin_text(b),
        TypeInfoView::Number(Some(t)) => number_type_text(t),
        TypeInfoView::Number(None) => "num"@,
        TypeInfoView::Generic(id) => "[generic @"@ + decimal_text(id as nat) + "]"@,
        TypeInfoView::UnknownGeneric(id) => "[unresolved generic @"@ + decimal_text(id as nat)
            + "]"@,
        TypeInfoView::Bottom => "[!]"@,
        _ => Seq::empty(),
    }
}

/// How the type with handle `id` is written: what the table holds for it,
/// `[?]` if it holds nothing, `[..]` once `fuel` references have been
/// followed.
pub open spec fn ref_text(tys: Map<TypeId, TypeInfoView>, id: TypeId, fuel: nat) -> Seq<char>
    decreases fuel, 0nat, 0nat,
{
    if fuel == 0 {
        "[..]"@
    } else if !tys.contains_key(id) {
        "[?]"@
    } else {
        info_text(tys, tys[id], (fuel - 1) as nat)
    }
}

/// How the types with the handles `ids` are written.
pub open spec fn refs_text(tys: Map<TypeId, TypeInfoView>, ids: Seq<TypeId>, fuel: nat) -> Seq<
    Seq<char>,
>
    decreases fuel, 1nat, ids.len(),
{
    if ids.len() == 0 {
        Seq::empty()
    } else {
        refs_text(tys, ids.drop_last(), fuel).push(ref_text(tys, ids.last(), fuel))
    }
}

/// How a type is written, following references through the table at most
/// `fuel` deep.
pub open spec fn info_text(tys: Map<TypeId, TypeInfoView>, info: TypeInfoView, fuel: nat) -> Seq<
    char,
>
    decreases fuel, 2nat, 0nat,
{
    match info {
        TypeInfoView::SameAs(id) => ref_text(tys, id, fuel),
        TypeInfoView::FuncSignature { return_ty, args, generics } => signature_text(
            refs_text(tys, generics, fuel),
            refs_text(tys, args, fuel),
            ref_text(tys, return_ty, fuel),
        ),
        _ => plain_text(info),
    }
}

/// Whether `out` is what a call of `follow_ref` on each of `ids` could have
/// returned.
pub open spec fn followed<F: Fn(&usize) -> String>(follow_ref: F, ids: Seq<TypeId>, out: Seq<
    String,
>) -> bool {
    &&& out.len() == ids.len()
    &&& forall|i: int| 0 <= i < ids.len() ==> follow_ref.ensures((&#[trigger] ids[i],), out[i])
}

/// Whether `text` writes `info` with its references written by
/// `follow_ref`.
pub open spec fn custom_text<F: Fn(&usize) -> String>(
    info: TypeInfoView,
    follow_ref: F,
    text: String,
) -> bool {
    match info {
        TypeInfoView::SameAs(id) => follow_ref.ensures((&id,), text),
        TypeInfoView::FuncSignature { return_ty, args, generics } => exists|
            gs: Seq<String>,
            xs: Seq<String>,
            r: String,
        |
            {
                &&& followed(follow_ref, generics, gs)
                &&& followed(follow_ref, args, xs)
                &&& follow_ref.ensures((&return_ty,), r)
                &&& text@ == signature_text(texts(gs), texts(xs), r@)
            },
        _ => text@ == plain_text(info),
    }
}

/// Calls `follow_ref` on each of `ids`, in order.
fn follow_all<F: Fn(&usize) -> String>(ids: &Vec<TypeId>, follow_ref: &F) -> (out: Vec<String>)
    requires
        forall|id: usize| #[trigger] follow_ref.requires((&id,)),
    ensures
        followed(*follow_ref, ids@, out@),
{
    let mut out: Vec<String> = Vec::new();
    let mut i: usize = 0;
    while i < ids.len()
        invariant
            forall|id: usize| #[trigger] follow_ref.requires((&id,)),
            i <= ids.len(),
            out.len() == i,
            forall|j: int| 0 <= j < i ==> follow_ref.ensures((&#[trigger] ids[j],), out[j]),
        decreases ids.len() - i,
    {
        let s = follow_ref(&ids[i]);
        out.push(s);
        i += 1;
    }
    out
}

/// [`refs_text`] keeps the length and writes each handle.
pub proof fn lemma_refs_text(tys: Map<TypeId, TypeInfoView>, ids: Seq<TypeId>, fuel: nat)
    ensures
        refs_text(tys, ids, fuel).len() == ids.len(),
        forall|j: int|
            0 <= j < ids.len() ==> #[trigger] refs_text(tys, ids, fuel)[j] == ref_text(
                tys,
                ids[j],
                fuel,
            ),
    decreases ids.len(),
{
    if ids.len() > 0 {
        lemma_refs_text(tys, ids.drop_last(), fuel);
    }
}

impl TypeInfo {
    /// Whether two infos say the same.
    pub fn same(&self, other: &TypeInfo) -> (same: bool)
        ensures
            same == (self@ == other@),
    {
        match self {
            TypeInfo::Unknown => match other {
                TypeInfo::Unknown => true,
                _ => false,
            },
            TypeInfo::SameAs(a) => match other {
                TypeInfo::SameAs(b) => *a == *b,
                _ => false,
            },
            TypeInfo::BuiltIn(a) => match other {
                TypeInfo::BuiltIn(b) => *a == *b,
                _ => false,
            },
            TypeInfo::Number(a) => match other {
                TypeInfo::Number(b) => *a == *b,
                _ => false,
            },
            TypeInfo::FuncSignature { return_ty, args, generics } => match other {
                TypeInfo::FuncSignature { return_ty: r2, args: a2, generics: g2 } => {
                    let same = *return_ty == *r2 && same_ids(args, a2) && same_ids(generics, g2);
                    same
                },
                _ => false,
            },
            TypeInfo::Generic(a) => match other {
                TypeInfo::Generic(b) => *a == *b,
                _ => false,
            },
            TypeInfo::UnknownGeneric(a) => match other {
                TypeInfo::UnknownGeneric(b) => *a == *b,
                _ => false,
            },
            TypeInfo::Bottom => match other {
                TypeInfo::Bottom => true,
                _ => false,
            },
        }
    }

    /// Writes a type that refers to no other: `?`, the name of a built-in
    /// type, `num` or the stated family of a number, the number of a
    /// generic, `[!]` for a failed type.
    fn display_plain(&self) -> (s: String)
        requires
            !(self@ is SameAs),
            !(self@ is FuncSignature),
        ensures
            s@ == plain_text(self@),
    {
        match self {
            TypeInfo::Unknown => String::from_str("?"),
            TypeInfo::BuiltIn(b) => b.to_string(),
            TypeInfo::Number(n) => match n {
                Some(t) => t.to_string(),
                None => String::from_str("num"),
            },
            TypeInfo::Generic(id) => {
                let mut s = String::from_str("[generic @");
                let digits = decimal(*id);
                s.append(digits.as_str());
                s.append("]");
                s
            },
            TypeInfo::UnknownGeneric(id) => {
                let mut s = String::from_str("[unresolved generic @");
                let digits = decimal(*id);
                s.append(digits.as_str());
                s.append("]");
                s
            },
            _ => String::from_str("[!]"),
        }
    }

    /// Writes a type, with `follow_ref` writing each type it refers to.
    pub fn display_custom<F: Fn(&usize) -> String>(&self, follow_ref: F) -> (s: String)
        requires
            forall|id: usize| #[trigger] follow_ref.requires((&id,)),
        ensures
            custom_text(self@, follow_ref, s),
    {
        match self {
            TypeInfo::SameAs(x) => follow_ref(x),
            TypeInfo::FuncSignature { return_ty, args, generics } => {
                let gs = follow_all(generics, &follow_ref);
                let xs = follow_all(args, &follow_ref);
                let r = follow_ref(return_ty);
                let s = write_signature(&gs, &xs, &r);
                assert(custom_text(self@, follow_ref, s)) by {
                    let gv = gs@;
                    let xv = xs@;
                    assert(followed(follow_ref, generics@, gv) && followed(follow_ref, args@, xv)
                        && follow_ref.ensures((return_ty,), r) && s@ == signature_text(
                        texts(gv),
                        texts(xv),
                        r@,
                    ));
                }
                s
            },
            _ => self.display_plain(),
        }
    }

    /// Writes a type, following the types it refers to through the engine's
    /// table.
    pub fn display(&self, engine: &Engine) -> (s: String)
        ensures
            s@ == info_text(engine.table(), self@, engine.depth()),
    {
        display_info(self, engine, engine.id_counter())
    }
}

/// Writes a function from the texts of its parts.
pub fn write_signature(generics: &Vec<String>, args: &Vec<String>, ret: &String) -> (s: String)
    ensures
        s@ == signature_text(texts(generics@), texts(args@), ret@),
{
    let mut s = String::from_str("[");
    let g = generics.join_comma_wrapped("<", ">");
    s.append(g.as_str());
    let a = args.join_comma_wrapped("(", ")");
    s.append(a.as_str());
    s.append(" -> ");
    s.append(ret.as_str());
    s.append("]");
    s
}

/// Writes the type with handle `id`.
pub fn display_ref(engine: &Engine, id: TypeId, fuel: usize) -> (s: String)
    ensures
        s@ == ref_text(engine.table(), id, fuel as nat),
    decreases fuel, 0nat, 0nat,
{
    if fuel == 0 {
        String::from_str("[..]")
    } else {
        match engine.get(id) {
            Some(info) => display_info(info, engine, fuel - 1),
            None => String::from_str("[?]"),
        }
    }
}

/// Writes the types with the handles `ids`.
fn display_refs(engine: &Engine, ids: &Vec<TypeId>, fuel: usize) -> (out: Vec<String>)
    ensures
        texts(out@) == refs_text(engine.table(), ids@, fuel as nat),
    decreases fuel, 1nat, 0nat,
{
    let mut out: Vec<String> = Vec::new();
    let mut i: usize = 0;
    while i < ids.len()
        invariant
            i <= ids.len(),
            out.len() == i,
            forall|j: int|
                0 <= j < i ==> (#[trigger] out[j])@ == ref_text(
                    engine.table(),
                    ids[j],
                    fuel as nat,
                ),
        decreases ids.len() - i,
    {
        let s = display_ref(engine, ids[i], fuel);
        out.push(s);
        i += 1;
    }
    proof {
        lemma_refs_text(engine.table(), ids@, fuel as nat);
        assert(texts(out@) =~= refs_text(engine.table(), ids@, fuel as nat));
    }
    out
}

/// Writes a type, following references at most `fuel` deep.
fn display_info(info: &TypeInfo, engine: &Engine, fuel: usize) -> (s: String)
    ensures
        s@ == info_text(engine.table(), info@, fuel as nat),
    decreases fuel, 2nat, 0nat,
{
    match info {
        TypeInfo::SameAs(x) => display_ref(engine, *x, fuel),
        TypeInfo::FuncSignature { return_ty, args, generics } => {
            let gs = display_refs(engine, generics, fuel);
            let xs = display_refs(engine, args, fuel);
            let r = display_ref(engine, *return_ty, fuel);
            write_signature(&gs, &xs, &r)
        },
        _ => info.display_plain(),
    }
}

} // verus!
