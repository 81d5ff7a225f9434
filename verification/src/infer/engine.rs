//! The table of types and their unification.

use crate::common::diagnostics::{
    out_of_ids, out_of_ids_diagnostic, primary_label, Diagnostic, Diagnostics, DiagnosticView,
    Label, Severity,
};
use crate::common::span::{Span, Spanned};
use crate::common::text::{decimal, decimal_text, texts};
use crate::common::types::BuiltIn;
use crate::infer::type_info::{
    display_ref, info_text, plain_text, ref_text, signature_text, write_signature, TypeId,
    TypeInfo, TypeInfoView,
};
use crate::lexer::NumberLiteralType;
use std::collections::HashMap;
use vstd::prelude::*;
use vstd::string::StringExecFns;

verus! {

broadcast use vstd::std_specs::hash::group_hash_axioms;

/// The table of the engine in specifications.
pub type Table = Map<TypeId, TypeInfoView>;

/// Why two types do not unify.
#[derive(Debug, Clone, Copy, PartialEq, Eq, Hash, Structural)]
pub enum ConflictKind {
    /// One side is `void` and the other is not.
    NonVoid,
    /// Two numeric types that differ.
    ImplicitCast,
    /// Anything else.
    CouldNotUnify,
}

/// What unification does with two types that refer to no other.
#[derive(Debug, Clone, Copy, PartialEq, Eq, Hash, Structural)]
pub enum Decision {
    /// They agree as they are.
    Keep,
    /// The first becomes the same as the second.
    LinkFirst,
    /// The second becomes the same as the first.
    LinkSecond,
    /// They do not unify.
    Conflict(ConflictKind),
}

/// Whether a number whose literal stated `stated` can be of type
/// `concrete`: the families agree, and so do the widths if one is stated.
pub open spec fn number_fits(stated: Option<NumberLiteralType>, concrete: BuiltIn) -> bool {
    match stated {
        None => true,
        Some(NumberLiteralType::Float { bits }) => match concrete {
            BuiltIn::Float { bits: desired } => bits is None || bits == Some(desired),
            _ => false,
        },
        Some(NumberLiteralType::Integer { bits, signed }) => match concrete {
            BuiltIn::Integer { bits: desired, signed: desired_signed } => signed == desired_signed
                && (bits is None || bits == Some(desired)),
            _ => false,
        },
    }
}

/// What unification does with the infos `a` and `b`, neither of which
/// refers to another type. The first rule that matches decides.
pub open spec fn decide(a: TypeInfoView, b: TypeInfoView) -> Decision {
    if a == b {
        Decision::Keep
    } else if a is Bottom || b is Bottom {
        Decision::Keep
    } else if a is Unknown {
        Decision::LinkFirst
    } else if b is Unknown {
        Decision::LinkSecond
    } else if a == TypeInfoView::BuiltIn(BuiltIn::Void) || b == TypeInfoView::BuiltIn(
        BuiltIn::Void,
    ) {
        Decision::Conflict(ConflictKind::NonVoid)
    } else {
        match a {
            TypeInfoView::BuiltIn(x) => match b {
                TypeInfoView::BuiltIn(_) => Decision::Conflict(ConflictKind::ImplicitCast),
                TypeInfoView::Number(n) => if number_fits(n, x) {
                    Decision::LinkSecond
                } else {
                    Decision::Conflict(ConflictKind::ImplicitCast)
                },
                _ => Decision::Conflict(ConflictKind::CouldNotUnify),
            },
            TypeInfoView::Number(n) => match b {
                TypeInfoView::BuiltIn(y) => if number_fits(n, y) {
                    Decision::LinkFirst
                } else {
                    Decision::Conflict(ConflictKind::ImplicitCast)
                },
                _ => Decision::Conflict(ConflictKind::CouldNotUnify),
            },
            _ => Decision::Conflict(ConflictKind::CouldNotUnify),
        }
    }
}

/// The table after unifying the types at `ra` and `rb` as `d` says.
pub open spec fn unified_table(t: Table, ra: TypeId, rb: TypeId, d: Decision) -> Table {
    match d {
        Decision::LinkFirst => t.insert(ra, TypeInfoView::SameAs(rb)),
        Decision::LinkSecond => t.insert(rb, TypeInfoView::SameAs(ra)),
        _ => t,
    }
}

/// The info that both types have after unification: the one that says
/// more; the failed type where either side has failed or the two conflict.
pub open spec fn unified_info(a: TypeInfoView, b: TypeInfoView) -> TypeInfoView {
    match decide(a, b) {
        Decision::Keep => if a is Bottom || b is Bottom {
            TypeInfoView::Bottom
        } else {
            a
        },
        Decision::LinkFirst => b,
        Decision::LinkSecond => a,
        Decision::Conflict(_) => TypeInfoView::Bottom,
    }
}

/// The sentence that says why `a` and `b`, written `ta` and `tb`, conflict.
pub open spec fn conflict_text(a: TypeInfoView, b: TypeInfoView, ta: Seq<char>, tb: Seq<char>)
    -> Seq<char> {
    match decide(a, b) {
        Decision::Conflict(ConflictKind::NonVoid) => "("@ + (if b == TypeInfoView::BuiltIn(
            BuiltIn::Void,
        ) {
            ta
        } else {
            tb
        }) + " is a non-void type)"@,
        Decision::Conflict(ConflictKind::ImplicitCast) =>
            "disallowed implicit cast between numeric types "@ + ta + " and "@ + tb,
        Decision::Conflict(ConflictKind::CouldNotUnify) => "could not unify "@ + ta + " and "@
            + tb,
        _ => Seq::empty(),
    }
}

/// The error for two types that conflict: a label at each operand with its
/// type, and the notes of the caller followed by the reason.
pub open spec fn conflict_diagnostic(
    title: Seq<char>,
    notes: Seq<Seq<char>>,
    a_span: Span,
    b_span: Span,
    ta: Seq<char>,
    tb: Seq<char>,
    reason: Seq<char>,
) -> DiagnosticView {
    DiagnosticView {
        severity: Severity::Error,
        message: title,
        labels: seq![
            primary_label(a_span, "("@ + ta + ")"@),
            primary_label(b_span, "("@ + tb + ")"@),
        ],
        notes: notes.push(reason),
    }
}

/// Every reference in `t` leads to a type of `t` that `rank` puts lower.
pub open spec fn links_ranked(t: Table, rank: Map<TypeId, nat>) -> bool {
    forall|i: TypeId|
        t.contains_key(i) ==> (#[trigger] t[i] matches TypeInfoView::SameAs(j) ==> t.contains_key(j)
            && rank[j] < rank[i])
}

/// The type that `i` leads to by following references downhill.
pub open spec fn find_root(t: Table, rank: Map<TypeId, nat>, i: TypeId) -> TypeId
    decreases rank[i],
{
    if t.contains_key(i) {
        match t[i] {
            TypeInfoView::SameAs(j) => if t.contains_key(j) && rank[j] < rank[i] {
                find_root(t, rank, j)
            } else {
                i
            },
            _ => i,
        }
    } else {
        i
    }
}

/// The root of a type is in the table and refers to no other type.
pub proof fn lemma_find_root(t: Table, rank: Map<TypeId, nat>, i: TypeId)
    requires
        links_ranked(t, rank),
        t.contains_key(i),
    ensures
        t.contains_key(find_root(t, rank, i)),
        !(t[find_root(t, rank, i)] is SameAs),
        t[i] matches TypeInfoView::SameAs(j) ==> find_root(t, rank, i) == find_root(t, rank, j),
        !(t[i] is SameAs) ==> find_root(t, rank, i) == i,
    decreases rank[i],
{
    match t[i] {
        TypeInfoView::SameAs(j) => {
            lemma_find_root(t, rank, j);
        },
        _ => {},
    }
}

/// Where `fuel` references lead from the type `i`, or fewer if they end
/// before.
pub open spec fn chase(t: Table, i: TypeId, fuel: nat) -> TypeId
    decreases fuel,
{
    if fuel == 0 || !t.contains_key(i) {
        i
    } else {
        match t[i] {
            TypeInfoView::SameAs(j) => chase(t, j, (fuel - 1) as nat),
            _ => i,
        }
    }
}

/// Whether the references from the type `i` end at the type `r`, which
/// is in the table and refers to no other.
pub open spec fn is_end(t: Table, i: TypeId, r: TypeId) -> bool {
    exists|n: nat| #[trigger] chase(t, i, n) == r && t.contains_key(r) && !(t[r] is SameAs)
}

/// The type at which the references from the type `i` end.
pub open spec fn end_of(t: Table, i: TypeId) -> TypeId {
    choose|r: TypeId| is_end(t, i, r)
}

/// With enough fuel, chasing references ends at the root.
pub proof fn lemma_chase_enough(t: Table, rank: Map<TypeId, nat>, i: TypeId, n: nat)
    requires
        links_ranked(t, rank),
        t.contains_key(i),
        n >= rank[i],
    ensures
        chase(t, i, n) == find_root(t, rank, i),
    decreases n,
{
    match t[i] {
        TypeInfoView::SameAs(j) => {
            lemma_chase_enough(t, rank, j, (n - 1) as nat);
        },
        _ => {},
    }
}

/// Wherever chasing references ends at a type that refers to no other,
/// that type is the root.
pub proof fn lemma_chase_ends(t: Table, rank: Map<TypeId, nat>, i: TypeId, n: nat)
    requires
        links_ranked(t, rank),
        t.contains_key(i),
        !(t[chase(t, i, n)] is SameAs),
    ensures
        chase(t, i, n) == find_root(t, rank, i),
    decreases n,
{
    if n > 0 {
        match t[i] {
            TypeInfoView::SameAs(j) => {
                lemma_chase_ends(t, rank, j, (n - 1) as nat);
            },
            _ => {},
        }
    }
}

/// In a table whose references are ranked, the references from a type end
/// at its root and nowhere else.
pub proof fn lemma_end_is_root(t: Table, rank: Map<TypeId, nat>, i: TypeId)
    requires
        links_ranked(t, rank),
        t.contains_key(i),
    ensures
        end_of(t, i) == find_root(t, rank, i),
        is_end(t, i, end_of(t, i)),
{
    let r = find_root(t, rank, i);
    lemma_find_root(t, rank, i);
    lemma_chase_enough(t, rank, i, rank[i]);
    assert(chase(t, i, rank[i]) == r);
    assert(is_end(t, i, r));
    let e = end_of(t, i);
    let n = choose|n: nat| #[trigger] chase(t, i, n) == e && t.contains_key(e) && !(t[e] is SameAs);
    lemma_chase_ends(t, rank, i, n);
}

/// The ranks after the type `to` has become the target of a new reference:
/// every other type moves above it.
pub open spec fn lifted(rank: Map<TypeId, nat>, to: TypeId) -> Map<TypeId, nat> {
    Map::new(|k: TypeId| true, |k: TypeId| if k == to {
        rank[to]
    } else {
        rank[k] + rank[to] + 1
    })
}

/// A root that becomes the same as another root keeps the references
/// ranked.
pub proof fn lemma_link_ranked(t: Table, rank: Map<TypeId, nat>, from: TypeId, to: TypeId)
    requires
        links_ranked(t, rank),
        t.contains_key(from),
        t.contains_key(to),
        from != to,
        !(t[to] is SameAs),
    ensures
        links_ranked(t.insert(from, TypeInfoView::SameAs(to)), lifted(rank, to)),
{
    let t2 = t.insert(from, TypeInfoView::SameAs(to));
    let r2 = lifted(rank, to);
    assert forall|i: TypeId| t2.contains_key(i) implies (#[trigger] t2[i] matches TypeInfoView::SameAs(
        j,
    ) ==> t2.contains_key(j) && r2[j] < r2[i]) by {
        if i != from {
            assert(t2[i] == t[i]);
        }
    }
}

/// The info of the type that `id` stands for in the table `t`.
pub open spec fn table_resolved(t: Table, id: TypeId) -> TypeInfoView {
    t[end_of(t, id)]
}

/// What unification decides for `a` and `b` in the table `t`.
pub open spec fn table_decision(t: Table, a: TypeId, b: TypeId) -> Decision {
    decide(table_resolved(t, a), table_resolved(t, b))
}

/// The table `t` after unifying `a` and `b`.
pub open spec fn table_unified(t: Table, a: TypeId, b: TypeId) -> Table {
    unified_table(t, end_of(t, a), end_of(t, b), table_decision(t, a, b))
}

/// What unifying `a` and `b` in the table `t` returns.
pub open spec fn table_result(t: Table, a: TypeId, b: TypeId) -> TypeInfoView {
    unified_info(table_resolved(t, a), table_resolved(t, b))
}

/// How the type that `id` stands for in the table `t` is written.
pub open spec fn table_root_text(t: Table, depth: nat, id: TypeId) -> Seq<char> {
    info_text(t, table_resolved(t, id), depth)
}

/// The sentence that says why `a` and `b` conflict in the table `t`.
pub open spec fn table_reason(t: Table, depth: nat, a: TypeId, b: TypeId) -> Seq<char> {
    conflict_text(
        table_resolved(t, a),
        table_resolved(t, b),
        table_root_text(t, depth, a),
        table_root_text(t, depth, b),
    )
}

/// What unifying `a` and `b` in the table `t` reports: nothing, or the
/// conflict.
pub open spec fn table_report(
    t: Table,
    depth: nat,
    a: Spanned<TypeId>,
    b: Spanned<TypeId>,
    title: Seq<char>,
    notes: Seq<Seq<char>>,
) -> Seq<DiagnosticView> {
    if table_decision(t, a.value, b.value) is Conflict {
        seq![
            conflict_diagnostic(
                title,
                notes,
                a.span,
                b.span,
                table_root_text(t, depth, a.value),
                table_root_text(t, depth, b.value),
                table_reason(t, depth, a.value, b.value),
            ),
        ]
    } else {
        Seq::empty()
    }
}

/// The table of types of one compilation, and the unification over it.
pub struct Engine {
    id_counter: TypeId,
    tys: HashMap<TypeId, TypeInfo>,
    rank: Ghost<Map<TypeId, nat>>,
}

impl Engine {
    /// What the table holds, handle by handle.
    pub closed spec fn table(&self) -> Table {
        Map::new(|k: TypeId| self.tys@.contains_key(k), |k: TypeId| self.tys@[k]@)
    }

    /// The handle given out last; zero before the first.
    pub closed spec fn counter(&self) -> nat {
        self.id_counter as nat
    }

    /// How deep a type is written before it is cut off.
    pub open spec fn depth(&self) -> nat {
        self.counter()
    }

    /// The table is sound: its handles are the ones given out, and
    /// references lead, without a cycle, to types of the table.
    pub closed spec fn wf(&self) -> bool {
        &&& forall|k: TypeId| #[trigger] self.tys@.contains_key(k) ==> 1 <= k <= self.id_counter
        &&& forall|k: TypeId| 1 <= k <= self.id_counter ==> #[trigger] self.tys@.contains_key(k)
        &&& links_ranked(self.table(), self.rank@)
    }

    /// The type that `id` stands for once references are followed.
    pub open spec fn root(&self, id: TypeId) -> TypeId {
        end_of(self.table(), id)
    }

    /// The info of the type that `id` stands for.
    pub open spec fn resolved(&self, id: TypeId) -> TypeInfoView {
        table_resolved(self.table(), id)
    }

    /// What makes a root: following the references of a type of the table
    /// ends at a type of the table that refers to no other.
    pub proof fn lemma_root(&self, id: TypeId)
        requires
            self.wf(),
            self.table().contains_key(id),
        ensures
            self.table().contains_key(self.root(id)),
            !(self.resolved(id) is SameAs),
            self.table()[id] matches TypeInfoView::SameAs(j) ==> self.root(id) == self.root(j),
            self.table()[id] matches TypeInfoView::SameAs(j) ==> self.table().contains_key(j),
            !(self.table()[id] is SameAs) ==> self.root(id) == id,
            1 <= id <= self.counter(),
    {
        lemma_find_root(self.table(), self.rank@, id);
        lemma_end_is_root(self.table(), self.rank@, id);
        match self.table()[id] {
            TypeInfoView::SameAs(j) => {
                lemma_end_is_root(self.table(), self.rank@, j);
            },
            _ => {},
        }
    }

    /// An engine that holds no type.
    pub fn new() -> (engine: Engine)
        ensures
            engine.wf(),
            engine.table() == Map::<TypeId, TypeInfoView>::empty(),
            engine.counter() == 0,
    {
        let engine = Engine { id_counter: 0, tys: HashMap::new(), rank: Ghost(Map::empty()) };
        assert(engine.table() =~= Map::<TypeId, TypeInfoView>::empty());
        engine
    }

    /// The handle given out last; zero before the first.
    pub fn id_counter(&self) -> (n: usize)
        ensures
            n == self.counter(),
    {
        self.id_counter
    }

    /// What the table holds for `id`.
    pub fn get(&self, id: TypeId) -> (info: Option<&TypeInfo>)
        ensures
            info is Some <==> self.table().contains_key(id),
            info matches Some(i) ==> i@ == self.table()[id],
    {
        self.tys.get(&id)
    }

    /// Records `info` as a new type and returns its handle, the next
    /// number.
    pub fn add_ty(&mut self, info: TypeInfo) -> (id: TypeId)
        requires
            old(self).wf(),
            old(self).counter() < usize::MAX,
            info@ matches TypeInfoView::SameAs(j) ==> old(self).table().contains_key(j),
        ensures
            final(self).wf(),
            id == old(self).counter() + 1,
            final(self).counter() == id,
            !old(self).table().contains_key(id),
            final(self).table() == old(self).table().insert(id, info@),
    {
        let ghost before = self.table();
        let ghost rank = self.rank@;
        self.id_counter += 1;
        let id = self.id_counter;
        proof {
            let r: nat = match info@ {
                TypeInfoView::SameAs(j) => rank[j] + 1,
                _ => 0,
            };
            self.rank = Ghost(rank.insert(id, r));
        }
        self.tys.insert(id, info);
        proof {
            assert(self.table() =~= before.insert(id, info@));
            assert forall|i: TypeId| self.table().contains_key(i) implies (
            #[trigger] self.table()[i] matches TypeInfoView::SameAs(j) ==> self.table().contains_key(j)
                && self.rank@[j] < self.rank@[i]) by {
                if i != id {
                    assert(self.table()[i] == before[i]);
                    assert(before.contains_key(i));
                }
            }
        }
        id
    }

    /// Records `info` as a new type and returns its handle. If no handle
    /// is left, that is reported at `span`, nothing is recorded, and the
    /// handle given out last comes back.
    pub fn record(&mut self, info: TypeInfo, span: Span, sink: &mut Diagnostics) -> (id: TypeId)
        requires
            old(self).wf(),
            info@ matches TypeInfoView::SameAs(j) ==> old(self).table().contains_key(j),
        ensures
            final(self).wf(),
            final(self).table().contains_key(id),
            old(self).table().dom().subset_of(final(self).table().dom()),
            old(self).counter() <= final(self).counter(),
            old(self).counter() < usize::MAX ==> id == old(self).counter() + 1 && final(self).table()
                == old(self).table().insert(id, info@) && final(sink)@ == old(sink)@ && final(self).counter() == id,
            old(self).counter() >= usize::MAX ==> id == old(self).counter() && final(self).table()
                == old(self).table() && final(sink)@ == old(sink)@.push(out_of_ids_diagnostic(span))
                && final(self).counter() == old(self).counter(),
    {
        if self.id_counter < usize::MAX {
            self.add_ty(info)
        } else {
            out_of_ids(sink, span);
            self.id_counter
        }
    }

    /// The type that `id` stands for once references are followed.
    pub fn find(&self, id: TypeId) -> (root: TypeId)
        requires
            self.wf(),
            self.table().contains_key(id),
        ensures
            root == self.root(id),
            self.table().contains_key(root),
            !(self.table()[root] is SameAs),
    {
        let mut cur = id;
        loop
            invariant
                self.wf(),
                self.table().contains_key(cur),
                self.root(cur) == self.root(id),
            ensures
                cur == self.root(id),
                self.table().contains_key(cur),
                !(self.table()[cur] is SameAs),
            decreases self.rank@[cur],
        {
            proof {
                self.lemma_root(cur);
            }
            let next = match self.tys.get(&cur) {
                Some(TypeInfo::SameAs(j)) => Some(*j),
                _ => None,
            };
            match next {
                Some(j) => {
                    cur = j;
                },
                None => {
                    break ;
                },
            }
        }
        cur
    }

    /// A copy of the info of the type that `id` stands for.
    pub fn resolve(&self, id: TypeId) -> (info: TypeInfo)
        requires
            self.wf(),
            self.table().contains_key(id),
        ensures
            info@ == self.resolved(id),
            !(info@ is SameAs),
    {
        let root = self.find(id);
        match self.tys.get(&root) {
            Some(info) => info.clone(),
            None => TypeInfo::Bottom,
        }
    }
}

/// What unification does with two infos that refer to no other type.
pub fn decide_infos(a: &TypeInfo, b: &TypeInfo) -> (d: Decision)
    ensures
        d == decide(a@, b@),
{
    if a.same(b) {
        return Decision::Keep;
    }
    let a_bottom = match a {
        TypeInfo::Bottom => true,
        _ => false,
    };
    let b_bottom = match b {
        TypeInfo::Bottom => true,
        _ => false,
    };
    if a_bottom || b_bottom {
        return Decision::Keep;
    }
    match a {
        TypeInfo::Unknown => {
            return Decision::LinkFirst;
        },
        _ => {},
    }
    match b {
        TypeInfo::Unknown => {
            return Decision::LinkSecond;
        },
        _ => {},
    }
    let a_void = match a {
        TypeInfo::BuiltIn(BuiltIn::Void) => true,
        _ => false,
    };
    let b_void = match b {
        TypeInfo::BuiltIn(BuiltIn::Void) => true,
        _ => false,
    };
    if a_void || b_void {
        return Decision::Conflict(ConflictKind::NonVoid);
    }
    match a {
        TypeInfo::BuiltIn(x) => match b {
            TypeInfo::BuiltIn(_) => Decision::Conflict(ConflictKind::ImplicitCast),
            TypeInfo::Number(n) => if fits(n, x) {
                Decision::LinkSecond
            } else {
                Decision::Conflict(ConflictKind::ImplicitCast)
            },
            _ => Decision::Conflict(ConflictKind::CouldNotUnify),
        },
        TypeInfo::Number(n) => match b {
            TypeInfo::BuiltIn(y) => if fits(n, y) {
                Decision::LinkFirst
            } else {
                Decision::Conflict(ConflictKind::ImplicitCast)
            },
            _ => Decision::Conflict(ConflictKind::CouldNotUnify),
        },
        _ => Decision::Conflict(ConflictKind::CouldNotUnify),
    }
}

/// Whether a number whose literal stated `stated` can be of type
/// `concrete`.
pub fn fits(stated: &Option<NumberLiteralType>, concrete: &BuiltIn) -> (ok: bool)
    ensures
        ok == number_fits(*stated, *concrete),
{
    match stated {
        None => true,
        Some(NumberLiteralType::Float { bits }) => match concrete {
            BuiltIn::Float { bits: desired } => match bits {
                None => true,
                Some(b) => *b == *desired,
            },
            _ => false,
        },
        Some(NumberLiteralType::Integer { bits, signed }) => match concrete {
            BuiltIn::Integer { bits: desired, signed: desired_signed } => *signed
                == *desired_signed && (match bits {
                None => true,
                Some(b) => *b == *desired,
            }),
            _ => false,
        },
    }
}

impl Engine {
    /// What unification decides for `a` and `b`: the decision on the infos
    /// of the types they stand for.
    pub open spec fn decision(&self, a: TypeId, b: TypeId) -> Decision {
        table_decision(self.table(), a, b)
    }

    /// The table after unifying `a` and `b`.
    pub open spec fn unify_table(&self, a: TypeId, b: TypeId) -> Table {
        table_unified(self.table(), a, b)
    }

    /// How the type that `id` stands for is written.
    pub open spec fn root_text(&self, id: TypeId) -> Seq<char> {
        table_root_text(self.table(), self.depth(), id)
    }

    /// The sentence that says why `a` and `b` conflict.
    pub open spec fn conflict_reason(&self, a: TypeId, b: TypeId) -> Seq<char> {
        table_reason(self.table(), self.depth(), a, b)
    }

    /// What unifying `a` and `b` returns: the info both then have, or the
    /// failed type.
    pub open spec fn unify_result(&self, a: TypeId, b: TypeId) -> TypeInfoView {
        table_result(self.table(), a, b)
    }

    /// What unifying `a` and `b` reports: nothing, or the conflict.
    pub open spec fn unify_report(
        &self,
        a: Spanned<TypeId>,
        b: Spanned<TypeId>,
        title: Seq<char>,
        notes: Seq<Seq<char>>,
    ) -> Seq<DiagnosticView> {
        table_report(self.table(), self.depth(), a, b, title, notes)
    }

    /// Unifies the types `a` and `b`: follows their references, and lets
    /// the first rule of the table that matches decide. On a conflict the
    /// table stays as it is, and the reason comes back with the two types
    /// as they are written.
    pub fn unify_inner(&mut self, a: Spanned<TypeId>, b: Spanned<TypeId>) -> (res: Result<
        (),
        (String, String, String),
    >)
        requires
            old(self).wf(),
            old(self).table().contains_key(a.value),
            old(self).table().contains_key(b.value),
        ensures
            final(self).wf(),
            final(self).counter() == old(self).counter(),
            final(self).table() == old(self).unify_table(a.value, b.value),
            final(self).table().dom() == old(self).table().dom(),
            res is Err <==> old(self).decision(a.value, b.value) is Conflict,
            res matches Err(e) ==> e.0@ == old(self).conflict_reason(a.value, b.value) && e.1@
                == old(self).root_text(a.value) && e.2@ == old(self).root_text(b.value),
    {
        let ra = self.find(a.value);
        let rb = self.find(b.value);
        let ghost before = self.table();
        let ghost rank = self.rank@;
        let d = match self.tys.get(&ra) {
            Some(ia) => match self.tys.get(&rb) {
                Some(ib) => decide_infos(ia, ib),
                None => Decision::Keep,
            },
            None => Decision::Keep,
        };
        assert(d == self.decision(a.value, b.value));
        match d {
            Decision::Keep => Ok(()),
            Decision::LinkFirst => {
                self.tys.insert(ra, TypeInfo::SameAs(rb));
                proof {
                    self.rank = Ghost(lifted(rank, rb));
                    assert(self.table() =~= before.insert(ra, TypeInfoView::SameAs(rb)));
                    assert(self.table().dom() =~= before.dom());
                    lemma_link_ranked(before, rank, ra, rb);
                }
                Ok(())
            },
            Decision::LinkSecond => {
                self.tys.insert(rb, TypeInfo::SameAs(ra));
                proof {
                    self.rank = Ghost(lifted(rank, ra));
                    assert(self.table() =~= before.insert(rb, TypeInfoView::SameAs(ra)));
                    assert(self.table().dom() =~= before.dom());
                    lemma_link_ranked(before, rank, rb, ra);
                }
                Ok(())
            },
            Decision::Conflict(kind) => {
                let (ta, tb, b_void) = match self.tys.get(&ra) {
                    Some(ia) => match self.tys.get(&rb) {
                        Some(ib) => {
                            let b_void = match ib {
                                TypeInfo::BuiltIn(BuiltIn::Void) => true,
                                _ => false,
                            };
                            (ia.display(self), ib.display(self), b_void)
                        },
                        None => (String::new(), String::new(), false),
                    },
                    None => (String::new(), String::new(), false),
                };
                let reason = match kind {
                    ConflictKind::NonVoid => {
                        let mut s = String::from_str("(");
                        s.append(if b_void { ta.as_str() } else { tb.as_str() });
                        s.append(" is a non-void type)");
                        s
                    },
                    ConflictKind::ImplicitCast => {
                        let mut s = String::from_str(
                            "disallowed implicit cast between numeric types ",
                        );
                        s.append(ta.as_str());
                        s.append(" and ");
                        s.append(tb.as_str());
                        s
                    },
                    ConflictKind::CouldNotUnify => {
                        let mut s = String::from_str("could not unify ");
                        s.append(ta.as_str());
                        s.append(" and ");
                        s.append(tb.as_str());
                        s
                    },
                };
                Err((reason, ta, tb))
            },
        }
    }

    /// Unifies `a` and `b` and returns the info that both then have. On a
    /// conflict it reports an error under `title`, with a label at each
    /// operand and `notes` followed by the reason, and returns the failed
    /// type.
    pub fn unify_custom_error(
        &mut self,
        a: Spanned<TypeId>,
        b: Spanned<TypeId>,
        title: &str,
        notes: Vec<String>,
        sink: &mut Diagnostics,
    ) -> (info: TypeInfo)
        requires
            old(self).wf(),
            old(self).table().contains_key(a.value),
            old(self).table().contains_key(b.value),
        ensures
            final(self).wf(),
            final(self).counter() == old(self).counter(),
            final(self).table() == old(self).unify_table(a.value, b.value),
            final(self).table().dom() == old(self).table().dom(),
            info@ == old(self).unify_result(a.value, b.value),
            !(info@ is SameAs),
            final(sink)@ == old(sink)@ + old(self).unify_report(a, b, title@, texts(notes@)),
    {
        let ia = self.resolve(a.value);
        let ib = self.resolve(b.value);
        let d = decide_infos(&ia, &ib);
        let ghost start = sink@;
        let ghost given = texts(notes@);
        match self.unify_inner(a, b) {
            Ok(_) => {
                assert(sink@ =~= start + Seq::<DiagnosticView>::empty());
                match d {
                    Decision::Keep => match ia {
                        TypeInfo::Bottom => TypeInfo::Bottom,
                        _ => match ib {
                            TypeInfo::Bottom => TypeInfo::Bottom,
                            _ => ia,
                        },
                    },
                    Decision::LinkFirst => ib,
                    _ => ia,
                }
            },
            Err(e) => {
                let (reason, ta, tb) = e;
                let mut notes = notes;
                notes.push(reason);
                let mut first = String::from_str("(");
                first.append(ta.as_str());
                first.append(")");
                let mut second = String::from_str("(");
                second.append(tb.as_str());
                second.append(")");
                let mut labels: Vec<Label> = Vec::new();
                labels.push(Label::primary(a.span, first));
                labels.push(Label::primary(b.span, second));
                let diagnostic = Diagnostic {
                    severity: Severity::Error,
                    message: String::from_str(title),
                    labels,
                    notes,
                };
                proof {
                    let want = conflict_diagnostic(
                        title@,
                        given,
                        a.span,
                        b.span,
                        ta@,
                        tb@,
                        reason@,
                    );
                    assert(diagnostic@.labels =~= want.labels);
                    assert(diagnostic@.notes =~= want.notes);
                    assert(start.push(want) =~= start + seq![want]);
                }
                sink.push(diagnostic);
                TypeInfo::Bottom
            },
        }
    }

    /// Unifies `a` and `b` and returns the info that both then have, or
    /// the failed type after reporting a type conflict.
    pub fn unify(&mut self, a: Spanned<TypeId>, b: Spanned<TypeId>, sink: &mut Diagnostics) -> (info:
        TypeInfo)
        requires
            old(self).wf(),
            old(self).table().contains_key(a.value),
            old(self).table().contains_key(b.value),
        ensures
            final(self).wf(),
            final(self).counter() == old(self).counter(),
            final(self).table() == old(self).unify_table(a.value, b.value),
            final(self).table().dom() == old(self).table().dom(),
            info@ == old(self).unify_result(a.value, b.value),
            !(info@ is SameAs),
            final(sink)@ == old(sink)@ + old(self).unify_report(
                a,
                b,
                "type conflict"@,
                Seq::empty(),
            ),
    {
        let notes: Vec<String> = Vec::new();
        assert(texts(notes@) =~= Seq::<Seq<char>>::empty());
        self.unify_custom_error(a, b, "type conflict", notes, sink)
    }
}

/// The decision with the two sides exchanged.
pub open spec fn flipped(d: Decision) -> Decision {
    match d {
        Decision::LinkFirst => Decision::LinkSecond,
        Decision::LinkSecond => Decision::LinkFirst,
        _ => d,
    }
}

/// Unification decides the same whichever side comes first: the same
/// conflict or the same reference, and the same info for both.
pub proof fn lemma_decide_commutes(a: TypeInfoView, b: TypeInfoView)
    ensures
        decide(b, a) == flipped(decide(a, b)),
        unified_info(b, a) == unified_info(a, b),
{
}

/// Unifying `a` with `b` and `b` with `a` leave the same table, return
/// the same info and conflict for the same reason, with a label for each
/// operand at its span. The two reports differ only in the order of the
/// operands: in the labels, and in the sentence where it names both.
pub proof fn lemma_unify_commutes(
    engine: &Engine,
    a: Spanned<TypeId>,
    b: Spanned<TypeId>,
    title: Seq<char>,
    notes: Seq<Seq<char>>,
)
    requires
        engine.wf(),
        engine.table().contains_key(a.value),
        engine.table().contains_key(b.value),
    ensures
        engine.unify_table(a.value, b.value) == engine.unify_table(b.value, a.value),
        engine.unify_result(a.value, b.value) == engine.unify_result(b.value, a.value),
        engine.decision(b.value, a.value) == flipped(engine.decision(a.value, b.value)),
        engine.unify_report(a, b, title, notes).len() == engine.unify_report(
            b,
            a,
            title,
            notes,
        ).len(),
        engine.decision(a.value, b.value) is Conflict ==> {
            let ab = engine.unify_report(a, b, title, notes)[0];
            let ba = engine.unify_report(b, a, title, notes)[0];
            &&& ab.severity == ba.severity
            &&& ab.message == ba.message
            &&& ab.labels == ba.labels.reverse()
            &&& ab.notes.drop_last() == ba.notes.drop_last()
            &&& ab.notes.last() == conflict_text(
                engine.resolved(a.value),
                engine.resolved(b.value),
                engine.root_text(a.value),
                engine.root_text(b.value),
            )
            &&& ba.notes.last() == conflict_text(
                engine.resolved(b.value),
                engine.resolved(a.value),
                engine.root_text(b.value),
                engine.root_text(a.value),
            )
            &&& engine.decision(a.value, b.value) == Decision::Conflict(ConflictKind::NonVoid)
                ==> ab.notes.last() == ba.notes.last()
        },
{
    lemma_decide_commutes(engine.resolved(a.value), engine.resolved(b.value));
    if engine.decision(a.value, b.value) is Conflict {
        let ab = engine.unify_report(a, b, title, notes)[0];
        let ba = engine.unify_report(b, a, title, notes)[0];
        assert(ab.labels =~= ba.labels.reverse());
        assert(ab.notes.drop_last() =~= notes);
        assert(ba.notes.drop_last() =~= notes);
    }
}

/// A number whose literal states no family takes any numeric type: unified
/// with a built-in type that is not `void`, it becomes that type, and
/// nothing is reported.
pub proof fn lemma_number_takes_builtin(concrete: BuiltIn)
    requires
        concrete != BuiltIn::Void,
    ensures
        decide(TypeInfoView::Number(None), TypeInfoView::BuiltIn(concrete)) == Decision::LinkFirst,
        decide(TypeInfoView::BuiltIn(concrete), TypeInfoView::Number(None))
            == Decision::LinkSecond,
        unified_info(TypeInfoView::Number(None), TypeInfoView::BuiltIn(concrete))
            == TypeInfoView::BuiltIn(concrete),
{
}

/// How a reference to the type `id` is written in a dump: the handle, and
/// in parentheses the type it leads to.
pub open spec fn decorated_text(t: Table, id: TypeId, fuel: nat) -> Seq<char> {
    "[@"@ + decimal_text(id as nat) + " ("@ + ref_text(t, id, fuel) + ")]"@
}

/// How references to the types `ids` are written in a dump.
pub open spec fn decorated_texts(t: Table, ids: Seq<TypeId>, fuel: nat) -> Seq<Seq<char>>
    decreases ids.len(),
{
    if ids.len() == 0 {
        Seq::empty()
    } else {
        decorated_texts(t, ids.drop_last(), fuel).push(decorated_text(t, ids.last(), fuel))
    }
}

/// How a type is written in a dump: as it is, with every reference
/// written out.
pub open spec fn shallow_text(t: Table, info: TypeInfoView, fuel: nat) -> Seq<char> {
    match info {
        TypeInfoView::SameAs(id) => decorated_text(t, id, fuel),
        TypeInfoView::FuncSignature { return_ty, args, generics } => signature_text(
            decorated_texts(t, generics, fuel),
            decorated_texts(t, args, fuel),
            decorated_text(t, return_ty, fuel),
        ),
        _ => plain_text(info),
    }
}

/// The line of a dump for the type `id`.
pub open spec fn dump_line(t: Table, id: TypeId, fuel: nat) -> Seq<char> {
    "@"@ + decimal_text(id as nat) + " -> "@ + shallow_text(t, t[id], fuel)
}

impl Engine {
    /// Every handle given out is in the table.
    pub proof fn lemma_all_present(&self, id: TypeId)
        requires
            self.wf(),
            1 <= id <= self.counter(),
        ensures
            self.table().contains_key(id),
    {
    }

    /// Writes a reference to the type `id` as a dump does.
    fn decorate(&self, id: TypeId) -> (s: String)
        ensures
            s@ == decorated_text(self.table(), id, self.depth()),
    {
        let mut s = String::from_str("[@");
        let digits = decimal(id);
        s.append(digits.as_str());
        s.append(" (");
        let text = display_ref(self, id, self.id_counter);
        s.append(text.as_str());
        s.append(")]");
        s
    }

    /// Writes references to the types `ids` as a dump does.
    fn decorate_all(&self, ids: &Vec<TypeId>) -> (out: Vec<String>)
        ensures
            texts(out@) == decorated_texts(self.table(), ids@, self.depth()),
    {
        let mut out: Vec<String> = Vec::new();
        let mut i: usize = 0;
        assert(ids@.take(0) =~= Seq::empty());
        assert(texts(out@) =~= decorated_texts(self.table(), ids@.take(0), self.depth()));
        while i < ids.len()
            invariant
                i <= ids.len(),
                texts(out@) == decorated_texts(self.table(), ids@.take(i as int), self.depth()),
            decreases ids.len() - i,
        {
            let ghost before = texts(out@);
            let text = self.decorate(ids[i]);
            out.push(text);
            proof {
                let next = ids@.take(i + 1);
                assert(next.drop_last() =~= ids@.take(i as int));
                assert(next.last() == ids[i as int]);
                assert(texts(out@) =~= before.push(text@));
            }
            i += 1;
        }
        assert(ids@.take(i as int) =~= ids@);
        out
    }

    /// The line of a dump for the type `id`.
    pub fn describe(&self, id: TypeId) -> (line: String)
        requires
            self.table().contains_key(id),
        ensures
            line@ == dump_line(self.table(), id, self.depth()),
    {
        let mut line = String::from_str("@");
        let digits = decimal(id);
        line.append(digits.as_str());
        line.append(" -> ");
        match self.tys.get(&id) {
            Some(info) => {
                let text = match info {
                    TypeInfo::SameAs(x) => self.decorate(*x),
                    TypeInfo::FuncSignature { return_ty, args, generics } => {
                        let gs = self.decorate_all(generics);
                        let xs = self.decorate_all(args);
                        let r = self.decorate(*return_ty);
                        write_signature(&gs, &xs, &r)
                    },
                    TypeInfo::Unknown => info.display(self),
                    TypeInfo::BuiltIn(_) => info.display(self),
                    TypeInfo::Number(_) => info.display(self),
                    TypeInfo::Generic(_) => info.display(self),
                    TypeInfo::UnknownGeneric(_) => info.display(self),
                    TypeInfo::Bottom => info.display(self),
                };
                line.append(text.as_str());
            },
            None => {},
        }
        line
    }

    /// The table as text: a line for every type, in the order of the
    /// handles.
    pub fn dump(&self) -> (lines: Vec<String>)
        requires
            self.wf(),
        ensures
            lines@.len() == self.counter(),
            forall|k: int|
                0 <= k < lines@.len() ==> (#[trigger] lines@[k])@ == dump_line(
                    self.table(),
                    (k + 1) as usize,
                    self.depth(),
                ),
    {
        let mut lines: Vec<String> = Vec::new();
        let mut id: usize = 0;
        while id < self.id_counter
            invariant
                self.wf(),
                id <= self.id_counter,
                lines@.len() == id,
                forall|k: int|
                    0 <= k < lines@.len() ==> (#[trigger] lines@[k])@ == dump_line(
                        self.table(),
                        (k + 1) as usize,
                        self.depth(),
                    ),
            decreases self.id_counter - id,
        {
            id += 1;
            lines.push(self.describe(id));
        }
        lines
    }
}

} // verus!
