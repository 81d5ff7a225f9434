//! Types as the source text names them.

use crate::common::ident::{Ident, IdentView};
use crate::common::span::Spanned;
use crate::common::text::{parse_u32_from, parsed_u32, str_eq};
use crate::common::typed_ident::TypedIdent;
use vstd::prelude::*;
use vstd::string::StrSliceExecFns;

verus! {

/// The widest integer the language has, in bits, is one less than this.
pub const MAX_INTEGER_BITS: u32 = 8388608;

/// A type that comes with the language itself.
#[derive(Debug, Clone, Copy, PartialEq, Eq, Hash, Structural)]
#[allow(inconsistent_fields)]
pub enum BuiltIn {
    /// `i<n>` or `u<n>`; without a width, as wide as a pointer.
    Integer { bits: Option<u32>, signed: bool },
    /// `f<n>`, with `n` one of 16, 32, 64 and 128.
    Float { bits: u8 },
    /// The absence of a value.
    Void,
}

/// A type as written in code.
#[derive(Debug, PartialEq, Eq)]
pub enum Type {
    /// A type the program declares, by name.
    User(Ident),
    /// A type of the language.
    BuiltIn(BuiltIn),
    /// A type with its generics filled in.
    Generic(Box<Type>, Vec<Type>),
    /// A type left for inference to find.
    Inferred,
}

/// What a [`Type`] stands for in specifications.
pub ghost enum TypeView {
    User(IdentView),
    BuiltIn(BuiltIn),
    Generic(Box<TypeView>, Seq<TypeView>),
    Inferred,
}

/// The views of a sequence of types, one by one.
pub open spec fn types_view(args: Seq<Type>) -> Seq<TypeView>
    decreases args, 0nat,
{
    if args.len() == 0 {
        Seq::empty()
    } else {
        types_view(args.drop_last()).push(type_view(args.last()))
    }
}

/// The view of one type.
pub open spec fn type_view(ty: Type) -> TypeView
    decreases ty, 1nat,
{
    match ty {
        Type::User(ident) => TypeView::User(ident@),
        Type::BuiltIn(b) => TypeView::BuiltIn(b),
        Type::Generic(base, args) => TypeView::Generic(Box::new(type_view(*base)), types_view(args@)),
        Type::Inferred => TypeView::Inferred,
    }
}

impl View for Type {
    type V = TypeView;

    open spec fn view(&self) -> TypeView {
        type_view(*self)
    }
}

/// [`types_view`] keeps the length and views each argument.
pub proof fn lemma_types_view(args: Seq<Type>)
    ensures
        types_view(args).len() == args.len(),
        forall|j: int| 0 <= j < args.len() ==> #[trigger] types_view(args)[j] == args[j]@,
    decreases args.len(),
{
    if args.len() > 0 {
        lemma_types_view(args.drop_last());
    }
}

/// The views of types with one more are the views with one more.
pub proof fn lemma_types_view_push(args: Seq<Type>, t: Type)
    ensures
        types_view(args.push(t)) == types_view(args).push(t@),
{
    assert(args.push(t).drop_last() =~= args);
}

impl Clone for Type {
    fn clone(&self) -> (res: Self)
        ensures
            res@ == self@,
        decreases self,
    {
        match self {
            Type::User(ident) => Type::User(ident.clone()),
            Type::BuiltIn(b) => Type::BuiltIn(*b),
            Type::Generic(base, args) => {
                let mut out: Vec<Type> = Vec::new();
                let mut i: usize = 0;
                while i < args.len()
                    invariant
                        forall|j: int|
                            0 <= j < args.len() ==> decreases_to!(self => #[trigger] args[j]),
                        i <= args.len(),
                        out.len() == i,
                        forall|j: int| 0 <= j < i ==> out[j]@ == args[j]@,
                    decreases args.len() - i,
                {
                    out.push(args[i].clone());
                    i += 1;
                }
                let inner: Type = (**base).clone();
                let res = Type::Generic(Box::new(inner), out);
                proof {
                    lemma_types_view(out@);
                    lemma_types_view(args@);
                    assert(res@->Generic_1 =~= self@->Generic_1);
                }
                res
            }
            Type::Inferred => Type::Inferred,
        }
    }
}

impl Spanned<Type> {
    /// The typed identifier of an argument that has a type and no name: the
    /// wildcard, at the span of the type.
    pub fn add_discarded_ident(self) -> (res: TypedIdent)
        ensures
            res.ty == self,
            res.ident.span == self.span,
            res.ident.value == Ident::Discarded,
    {
        let span = self.span;
        TypedIdent { ty: self, ident: Spanned { span, value: Ident::Discarded } }
    }
}

impl BuiltIn {
    /// Whether the widths are ones the language has.
    pub open spec fn valid(self) -> bool {
        match self {
            BuiltIn::Integer { bits: Some(n), .. } => 0 < n < MAX_INTEGER_BITS,
            BuiltIn::Integer { bits: None, .. } => true,
            BuiltIn::Float { bits } => bits == 16 || bits == 32 || bits == 64 || bits == 128,
            BuiltIn::Void => true,
        }
    }

    /// The width in bits: none for a pointer-wide integer, zero for `void`.
    pub open spec fn width_spec(self) -> Option<u32> {
        match self {
            BuiltIn::Integer { bits, .. } => bits,
            BuiltIn::Float { bits } => Some(bits as u32),
            BuiltIn::Void => Some(0u32),
        }
    }

    /// Whether the widths are ones the language has: an integer of 1 to
    /// 2^23 - 1 bits or of pointer width, a float of 16, 32, 64 or 128 bits.
    pub fn is_valid(&self) -> (ok: bool)
        ensures
            ok == self.valid(),
    {
        match self {
            BuiltIn::Integer { bits, signed: _ } => match bits {
                Some(n) => *n < MAX_INTEGER_BITS && *n > 0,
                None => true,
            },
            BuiltIn::Float { bits } => *bits == 16 || *bits == 32 || *bits == 64 || *bits == 128,
            BuiltIn::Void => true,
        }
    }

    /// The width in bits: none for a pointer-wide integer, zero for `void`.
    pub fn width(&self) -> (w: Option<u32>)
        ensures
            w == self.width_spec(),
    {
        match self {
            BuiltIn::Integer { bits, signed: _ } => *bits,
            BuiltIn::Float { bits } => Some(*bits as u32),
            BuiltIn::Void => Some(0),
        }
    }
}

/// The built-in type that `name` names before its widths are checked.
pub open spec fn named_builtin(name: Seq<char>) -> Option<BuiltIn> {
    if name == "void"@ {
        Some(BuiltIn::Void)
    } else if name == "bool"@ {
        Some(BuiltIn::Integer { bits: Some(1u32), signed: false })
    } else if name.len() == 0 {
        None
    } else {
        let rest = name.subrange(1, name.len() as int);
        match parsed_u32(rest) {
            Some(bits) => if name[0] == 'u' {
                Some(BuiltIn::Integer { bits: Some(bits), signed: false })
            } else if name[0] == 'i' {
                Some(BuiltIn::Integer { bits: Some(bits), signed: true })
            } else if name[0] == 'f' && bits <= 128 {
                Some(BuiltIn::Float { bits: bits as u8 })
            } else {
                None
            },
            None => if rest == "size"@ && name[0] == 'u' {
                Some(BuiltIn::Integer { bits: None, signed: false })
            } else if rest == "size"@ && name[0] == 'i' {
                Some(BuiltIn::Integer { bits: None, signed: true })
            } else {
                None
            },
        }
    }
}

/// The built-in type that `name` names, if it names one the language has.
pub open spec fn builtin_of_name(name: Seq<char>) -> Option<BuiltIn> {
    match named_builtin(name) {
        Some(b) => if b.valid() {
            Some(b)
        } else {
            None
        },
        None => None,
    }
}

impl BuiltIn {
    /// The built-in type called `name`: `void`, `bool` (an unsigned integer
    /// of one bit), `i<n>`, `u<n>`, `isize`, `usize` or `f<n>`, with a width
    /// the language has. Any other name is none.
    pub fn from_name(name: &str) -> (res: Option<BuiltIn>)
        ensures
            res == builtin_of_name(name@),
    {
        let raw = if str_eq(name, "void") {
            Some(BuiltIn::Void)
        } else if str_eq(name, "bool") {
            Some(BuiltIn::Integer { bits: Some(1), signed: false })
        } else if name.unicode_len() == 0 {
            None
        } else {
            let first = name.get_char(0);
            match parse_u32_from(name, 1) {
                Some(bits) => {
                    if first == 'u' {
                        Some(BuiltIn::Integer { bits: Some(bits), signed: false })
                    } else if first == 'i' {
                        Some(BuiltIn::Integer { bits: Some(bits), signed: true })
                    } else if first == 'f' && bits <= 128 {
                        Some(BuiltIn::Float { bits: bits as u8 })
                    } else {
                        None
                    }
                },
                None => {
                    let sized = rest_is(name, "size");
                    if sized && first == 'u' {
                        Some(BuiltIn::Integer { bits: None, signed: false })
                    } else if sized && first == 'i' {
                        Some(BuiltIn::Integer { bits: None, signed: true })
                    } else {
                        None
                    }
                },
            }
        };
        match raw {
            Some(b) => if b.is_valid() {
                Some(b)
            } else {
                None
            },
            None => None,
        }
    }
}

/// Whether `name` without its first character is `rest`.
fn rest_is(name: &str, rest: &str) -> (same: bool)
    requires
        name@.len() > 0,
    ensures
        same == (name@.subrange(1, name@.len() as int) == rest@),
{
    let n = name.unicode_len();
    let m = rest.unicode_len();
    if n - 1 != m {
        return false;
    }
    let ghost tail = name@.subrange(1, n as int);
    let mut i: usize = 0;
    while i < m
        invariant
            n == name@.len(),
            m == rest@.len(),
            n - 1 == m,
            i <= m,
            tail == name@.subrange(1, n as int),
            forall|j: int| 0 <= j < i ==> tail[j] == rest@[j],
        decreases m - i,
    {
        if name.get_char(i + 1) != rest.get_char(i) {
            assert(tail[i as int] != rest@[i as int]);
            return false;
        }
        i += 1;
    }
    assert(tail =~= rest@);
    true
}

} // verus!
