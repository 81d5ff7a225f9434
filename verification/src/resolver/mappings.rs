//! What the resolver knows of the names in sight: which number each name
//! has, and what kind of thing each number stands for.

use crate::common::diagnostics::{type_mismatch, type_mismatch_diagnostic, Diagnostics};
use crate::common::ident::{Id, Ident, IdentView};
use crate::common::span::Span;
use bimap::BiMap;
use std::collections::HashMap;
use vstd::prelude::*;

verus! {

broadcast use vstd::std_specs::hash::group_hash_axioms;

/// What a name stands for.
#[derive(Debug, Clone, Copy, PartialEq, Eq, Hash, Structural)]
pub enum MapRepr {
    Var,
    Func,
    Type,
}

impl MapRepr {
    /// How messages name the kind.
    pub open spec fn text_spec(self) -> Seq<char> {
        match self {
            MapRepr::Var => "variable"@,
            MapRepr::Func => "function"@,
            MapRepr::Type => "type"@,
        }
    }

    /// How messages name the kind.
    pub fn text(&self) -> (s: &'static str)
        ensures
            s@ == self.text_spec(),
    {
        match self {
            MapRepr::Var => "variable",
            MapRepr::Func => "function",
            MapRepr::Type => "type",
        }
    }

    /// The name of the kind, as a string of its own.
    pub fn to_string(&self) -> (s: String)
        ensures
            s@ == self.text_spec(),
    {
        self.text().to_owned()
    }
}

/// `bimap::BiHashMap`, a map that is read in both directions: each left
/// value has one right value and each right value one left value.
#[verifier::external_type_specification]
#[verifier::external_body]
#[verifier::reject_recursive_types(L)]
#[verifier::reject_recursive_types(R)]
#[verifier::reject_recursive_types(LS)]
#[verifier::reject_recursive_types(RS)]
pub struct ExBiHashMap<L, R, LS, RS>(bimap::BiHashMap<L, R, LS, RS>);

/// The pairs that a bimap of numbers and names holds, from left to right.
pub uninterp spec fn bimap_pairs(m: BiMap<Id, Ident>) -> Map<Id, IdentView>;

/// The pairs of a bimap, written as a method.
pub trait Pairs {
    /// The pairs that the bimap holds, from left to right.
    spec fn pairs(&self) -> Map<Id, IdentView>;
}

impl Pairs for BiMap<Id, Ident> {
    open spec fn pairs(&self) -> Map<Id, IdentView> {
        bimap_pairs(*self)
    }
}

/// The pairs after `left` and `right` have been inserted: the pairs that
/// held either of them are gone.
pub open spec fn paired(pairs: Map<Id, IdentView>, left: Id, right: IdentView) -> Map<
    Id,
    IdentView,
> {
    Map::new(
        |k: Id| k == left || (pairs.contains_key(k) && pairs[k] != right),
        |k: Id| if k == left {
            right
        } else {
            pairs[k]
        },
    )
}

/// No pairs at all.
pub open spec fn no_pairs() -> Map<Id, IdentView> {
    Map::empty()
}

/// `BiHashMap::new` makes a bimap without pairs.
#[verifier::external_body]
fn bimap_new() -> (m: BiMap<Id, Ident>)
    ensures
        bimap_pairs(m) == no_pairs(),
{
    BiMap::new()
}

/// `BiHashMap::insert` removes the pair of the left value and the pair of
/// the right value, if there are any, and then holds the new pair.
#[verifier::external_body]
fn bimap_insert(m: &mut BiMap<Id, Ident>, left: Id, right: Ident)
    ensures
        final(m).pairs() == paired(old(m).pairs(), left, right@),
{
    m.insert(left, right);
}

/// `BiHashMap::get_by_left` returns the right value paired with a left
/// value, if the left value has a pair.
#[verifier::external_body]
fn bimap_get_by_left<'a>(m: &'a BiMap<Id, Ident>, left: &Id) -> (res: Option<&'a Ident>)
    ensures
        res is Some <==> bimap_pairs(*m).contains_key(*left),
        res matches Some(right) ==> right@ == bimap_pairs(*m)[*left],
{
    m.get_by_left(left)
}

/// `BiHashMap::get_by_right` returns the left value paired with a right
/// value, if the right value has a pair.
#[verifier::external_body]
fn bimap_get_by_right<'a>(m: &'a BiMap<Id, Ident>, right: &Ident) -> (res: Option<&'a Id>)
    ensures
        res matches Some(left) ==> bimap_pairs(*m).contains_key(*left) && bimap_pairs(*m)[*left]
            == right@,
        res is None ==> forall|k: Id|
            bimap_pairs(*m).contains_key(k) ==> #[trigger] bimap_pairs(*m)[k] != right@,
{
    m.get_by_right(right)
}

/// `BiHashMap::clone` makes a bimap with the same pairs.
#[verifier::external_body]
fn bimap_clone(m: &BiMap<Id, Ident>) -> (res: BiMap<Id, Ident>)
    ensures
        bimap_pairs(res) == bimap_pairs(*m),
{
    m.clone()
}

/// The names in sight with their numbers, and the kind of every number
/// given out so far.
pub struct Mappings {
    pub mappings: BiMap<Id, Ident>,
    pub reprs: HashMap<Id, MapRepr>,
}

impl Mappings {
    /// The name of each number in sight.
    pub open spec fn names(&self) -> Map<Id, IdentView> {
        bimap_pairs(self.mappings)
    }

    /// The kind of each number.
    pub open spec fn kinds(&self) -> Map<Id, MapRepr> {
        self.reprs@
    }

    /// Whether `name` is in sight.
    pub open spec fn knows(&self, name: IdentView) -> bool {
        crate::resolver::spec::knows(self.names(), name)
    }

    /// The number of `name`, if it is in sight.
    pub open spec fn number_of(&self, name: IdentView) -> Id {
        crate::resolver::spec::number_of(self.names(), name)
    }

    /// No name has two numbers.
    pub open spec fn wf(&self) -> bool {
        forall|a: Id, b: Id|
            self.names().contains_key(a) && self.names().contains_key(b) && #[trigger] self.names()[a]
                == #[trigger] self.names()[b] ==> a == b
    }

    /// Mappings that know no name.
    pub fn new() -> (m: Mappings)
        ensures
            m.wf(),
            m.names() == Map::<Id, IdentView>::empty(),
            m.kinds() == Map::<Id, MapRepr>::empty(),
    {
        Mappings { mappings: bimap_new(), reprs: HashMap::new() }
    }

    /// The name with the number `id`.
    pub fn get_by_id(&self, id: &Id) -> (res: Option<&Ident>)
        ensures
            res is Some <==> self.names().contains_key(*id),
            res matches Some(ident) ==> ident@ == self.names()[*id],
    {
        bimap_get_by_left(&self.mappings, id)
    }

    /// The number of the name `ident`.
    pub fn get_by_ident(&self, ident: &Ident) -> (res: Option<&Id>)
        requires
            self.wf(),
        ensures
            res is Some <==> self.knows(ident@),
            res matches Some(id) ==> *id == self.number_of(ident@) && self.names().contains_key(*id)
                && self.names()[*id] == ident@,
    {
        let res = bimap_get_by_right(&self.mappings, ident);
        proof {
            match res {
                Some(id) => {
                    assert(self.names()[*id] == ident@);
                },
                None => {},
            }
        }
        res
    }

    /// The kind of the number `id`.
    pub fn get_repr(&self, id: &Id) -> (res: Option<MapRepr>)
        ensures
            res is Some <==> self.kinds().contains_key(*id),
            res matches Some(repr) ==> repr == self.kinds()[*id],
    {
        match self.reprs.get(id) {
            Some(repr) => Some(*repr),
            None => None,
        }
    }

    /// Makes `repr` the kind of the number `id`.
    pub fn set_repr(&mut self, id: &Id, repr: MapRepr)
        ensures
            final(self).kinds() == old(self).kinds().insert(*id, repr),
            final(self).mappings == old(self).mappings,
    {
        self.reprs.insert(*id, repr);
    }

    /// The number of the name `ident`: the one it has, or, if it is not in
    /// sight, the number after `counter`, under which it comes in sight
    /// without a kind.
    pub fn get_or_add_id(&mut self, ident: &Ident, counter: &mut Id) -> (id: Id)
        requires
            old(self).wf(),
            *old(counter) < usize::MAX,
        ensures
            final(self).wf(),
            final(self).kinds() == old(self).kinds(),
            old(self).knows(ident@) ==> id == old(self).number_of(ident@) && final(self).names()
                == old(self).names() && *final(counter) == *old(counter),
            !old(self).knows(ident@) ==> id == *old(counter) + 1 && *final(counter) == id && final(self).names() == paired(old(self).names(), id, ident@),
    {
        let found = match self.get_by_ident(ident) {
            Some(id) => Some(*id),
            None => None,
        };
        match found {
            Some(id) => id,
            None => {
                *counter = *counter + 1;
                let id = *counter;
                self.pair(id, ident.clone());
                id
            },
        }
    }

    /// Brings the name `ident` in sight under the number `id`. A name or a
    /// number that was in sight before gives way.
    fn pair(&mut self, id: Id, ident: Ident)
        requires
            old(self).wf(),
        ensures
            final(self).wf(),
            final(self).names() == paired(old(self).names(), id, ident@),
            final(self).reprs == old(self).reprs,
    {
        let ghost before = self.names();
        let ghost name = ident@;
        bimap_insert(&mut self.mappings, id, ident);
        proof {
            let after = self.names();
            assert(after == paired(before, id, name));
            assert forall|a: Id, b: Id|
                after.contains_key(a) && after.contains_key(b) && #[trigger] after[a]
                    == #[trigger] after[b] implies a == b by {
                if a != id && b != id {
                    assert(before[a] == before[b]);
                }
            }
        }
    }

    /// Brings the name `ident` in sight under the number `id`, with the
    /// kind `repr`. A name or a number that was in sight before gives way.
    pub fn insert(&mut self, id: Id, ident: Ident, repr: MapRepr)
        requires
            old(self).wf(),
        ensures
            final(self).wf(),
            final(self).names() == paired(old(self).names(), id, ident@),
            final(self).kinds() == old(self).kinds().insert(id, repr),
    {
        self.pair(id, ident);
        self.reprs.insert(id, repr);
    }

    /// Brings a variable in sight.
    pub fn insert_var(&mut self, id: Id, ident: Ident)
        requires
            old(self).wf(),
        ensures
            final(self).wf(),
            final(self).names() == paired(old(self).names(), id, ident@),
            final(self).kinds() == old(self).kinds().insert(id, MapRepr::Var),
    {
        self.insert(id, ident, MapRepr::Var);
    }

    /// Brings a function in sight.
    pub fn insert_func(&mut self, id: Id, ident: Ident)
        requires
            old(self).wf(),
        ensures
            final(self).wf(),
            final(self).names() == paired(old(self).names(), id, ident@),
            final(self).kinds() == old(self).kinds().insert(id, MapRepr::Func),
    {
        self.insert(id, ident, MapRepr::Func);
    }

    /// Brings a type in sight.
    pub fn insert_ty(&mut self, id: Id, ident: Ident)
        requires
            old(self).wf(),
        ensures
            final(self).wf(),
            final(self).names() == paired(old(self).names(), id, ident@),
            final(self).kinds() == old(self).kinds().insert(id, MapRepr::Type),
    {
        self.insert(id, ident, MapRepr::Type);
    }

    /// Holds the number `id` to the kind `want`: a number without a kind
    /// gets it, a number of another kind is reported as misused at `span`.
    pub fn ensure_repr(&mut self, id: Id, want: MapRepr, span: Span, sink: &mut Diagnostics)
        ensures
            final(self).mappings == old(self).mappings,
            final(self).kinds() == if old(self).kinds().contains_key(id) {
                old(self).kinds()
            } else {
                old(self).kinds().insert(id, want)
            },
            final(sink)@ == if old(self).kinds().contains_key(id) && old(self).kinds()[id] != want {
                old(sink)@.push(type_mismatch_diagnostic(span, old(self).kinds()[id], want))
            } else {
                old(sink)@
            },
    {
        match self.get_repr(&id) {
            Some(x) => {
                if x != want {
                    type_mismatch(sink, span, x, want);
                }
            },
            None => {
                self.set_repr(&id, want);
            },
        }
    }
}

impl Clone for Mappings {
    fn clone(&self) -> (res: Self)
        ensures
            res.names() == self.names(),
            res.kinds() == self.kinds(),
    {
        Mappings { mappings: bimap_clone(&self.mappings), reprs: self.reprs.clone() }
    }
}

} // verus!
