//! Which type each name has.

use crate::common::ident::Id;
use crate::common::span::Spanned;
use crate::infer::type_info::TypeId;
use std::collections::HashMap;
use vstd::prelude::*;

verus! {

broadcast use vstd::std_specs::hash::group_hash_axioms;

/// The types of the names of a program: those of the names that are
/// types, and those of the names that are variables or functions.
pub struct Mappings {
    named_tys: HashMap<Id, Spanned<TypeId>>,
    var_tys: HashMap<Id, Spanned<TypeId>>,
}

impl Mappings {
    /// The type each type name stands for.
    pub closed spec fn named(&self) -> Map<Id, Spanned<TypeId>> {
        self.named_tys@
    }

    /// The type of each variable and function.
    pub closed spec fn vars(&self) -> Map<Id, Spanned<TypeId>> {
        self.var_tys@
    }

    /// Mappings that hold no name.
    pub fn new() -> (m: Mappings)
        ensures
            m.named() == Map::<Id, Spanned<TypeId>>::empty(),
            m.vars() == Map::<Id, Spanned<TypeId>>::empty(),
    {
        Mappings { named_tys: HashMap::new(), var_tys: HashMap::new() }
    }

    /// The type that the type name `id` stands for.
    pub fn get_named_ty(&self, id: Id) -> (res: Option<Spanned<TypeId>>)
        ensures
            res is Some <==> self.named().contains_key(id),
            res matches Some(ty) ==> ty == self.named()[id],
    {
        match self.named_tys.get(&id) {
            Some(ty) => Some(*ty),
            None => None,
        }
    }

    /// The type of the variable or function `id`.
    pub fn get_var_ty(&self, id: Id) -> (res: Option<Spanned<TypeId>>)
        ensures
            res is Some <==> self.vars().contains_key(id),
            res matches Some(ty) ==> ty == self.vars()[id],
    {
        match self.var_tys.get(&id) {
            Some(ty) => Some(*ty),
            None => None,
        }
    }

    /// Makes `ty` the type that the type name `id` stands for.
    pub fn insert_named_ty(&mut self, id: Id, ty: Spanned<TypeId>)
        ensures
            final(self).named() == old(self).named().insert(id, ty),
            final(self).vars() == old(self).vars(),
    {
        self.named_tys.insert(id, ty);
    }

    /// Makes `ty` the type of the variable or function `id`.
    pub fn insert_var_ty(&mut self, id: Id, ty: Spanned<TypeId>)
        ensures
            final(self).vars() == old(self).vars().insert(id, ty),
            final(self).named() == old(self).named(),
    {
        self.var_tys.insert(id, ty);
    }
}

/// The name among the entries of `m` whose type is `ty`, if there is
/// one; of several, any.
fn name_of(m: &HashMap<Id, Spanned<TypeId>>, ty: TypeId) -> (res: Option<Id>)
    ensures
        res matches Some(id) ==> m@.contains_key(id) && m@[id].value == ty,
        res is None ==> forall|id: Id| m@.contains_key(id) ==> (#[trigger] m@[id]).value != ty,
{
    let entries = m.iter();
    for entry in it: entries
        invariant
            forall|j: int| 0 <= j < it.index() ==> (#[trigger] it.seq()[j]).1.value != ty,
            forall|j: int|
                0 <= j < it.seq().len() ==> m@.contains_key(*(#[trigger] it.seq()[j]).0) && m@[*it.seq()[j].0]
                    == *it.seq()[j].1,
    {
        if entry.1.value == ty {
            return Some(*entry.0);
        }
    }
    None
}

impl Mappings {
    /// The name whose type is `ty`: a variable or function if one has it,
    /// else a type name; none if no name has it. Of several names of one
    /// kind, any.
    pub fn get_id_from_ty(&self, ty: TypeId) -> (res: Option<Id>)
        ensures
            res matches Some(id) ==> (self.vars().contains_key(id) && self.vars()[id].value == ty)
                || (self.named().contains_key(id) && self.named()[id].value == ty && forall|
                v: Id,
            |
                self.vars().contains_key(v) ==> (#[trigger] self.vars()[v]).value != ty),
            res is None ==> forall|id: Id|
                (self.vars().contains_key(id) ==> (#[trigger] self.vars()[id]).value != ty) && (
                self.named().contains_key(id) ==> (#[trigger] self.named()[id]).value != ty),
    {
        match name_of(&self.var_tys, ty) {
            Some(id) => Some(id),
            None => name_of(&self.named_tys, ty),
        }
    }
}

} // verus!
