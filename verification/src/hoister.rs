//! Hoisting: every scope gets the table of what it declares, and its
//! functions move from the statements into that table.

pub mod display;
pub mod view;

use crate::common::expr::Expr;
use crate::common::func::{clone_spanned_types, spanned_types_view, Func};
use crate::common::ident::{Ident, IdentView};
use crate::common::scope::Scope;
use crate::common::span::Spanned;
use crate::common::stmt::Stmt;
use crate::common::types::{Type, TypeView};
use crate::parser::types::{ParserExpr, ParserScope, ParserStmt};
use vstd::prelude::*;

verus! {

/// A variable as its scope's table knows it.
#[derive(Debug, PartialEq, Eq)]
pub struct Var {
    pub ty: Type,
    pub mutable: bool,
}

/// What a [`Var`] stands for in specifications.
pub ghost struct VarView {
    pub ty: TypeView,
    pub mutable: bool,
}

impl View for Var {
    type V = VarView;

    open spec fn view(&self) -> VarView {
        VarView { ty: self.ty@, mutable: self.mutable }
    }
}

impl Clone for Var {
    fn clone(&self) -> (res: Self)
        ensures
            res@ == self@,
    {
        Var { ty: self.ty.clone(), mutable: self.mutable }
    }
}

pub type HoistedExpr = Expr<HoistedScope>;

pub type HoistedStmt = Stmt<HoistedScope>;

pub type HoistedFunc = Func<HoistedScope>;

/// What a scope declares. Each table holds a name once; the spans are
/// those of the declarations.
#[derive(Debug, PartialEq, Eq)]
pub struct HoistedScopeData {
    pub vars: Vec<(Ident, Spanned<Var>)>,
    pub funcs: Vec<(Ident, Spanned<HoistedFunc>)>,
}

/// A scope with the table of what it declares.
#[derive(Debug, PartialEq, Eq)]
pub struct HoistedScope {
    pub stmts: Vec<Spanned<HoistedStmt>>,
    pub data: HoistedScopeData,
}

impl Scope for HoistedScope {
    open spec fn stmts_spec(&self) -> Seq<Spanned<Stmt<Self>>> {
        self.stmts@
    }

    fn stmts(&self) -> (stmts: &Vec<Spanned<Stmt<Self>>>) {
        &self.stmts
    }
}

/// No name is the key of two entries.
pub open spec fn keys_distinct<V>(entries: Seq<(Ident, V)>) -> bool {
    forall|i: int, j: int|
        0 <= i < j < entries.len() ==> (#[trigger] entries[i]).0@ != (#[trigger] entries[j]).0@
}

/// Whether `name` is the key of an entry.
pub open spec fn has_key<V>(entries: Seq<(Ident, V)>, name: IdentView) -> bool {
    exists|i: int| 0 <= i < entries.len() && (#[trigger] entries[i]).0@ == name
}

/// The index of an entry with the key `name`.
pub open spec fn index_of<V>(entries: Seq<(Ident, V)>, name: IdentView) -> int {
    choose|i: int| 0 <= i < entries.len() && (#[trigger] entries[i]).0@ == name
}

/// The entries as a map from names to values.
pub open spec fn table_map<V>(entries: Seq<(Ident, V)>) -> Map<IdentView, V> {
    Map::new(
        |name: IdentView| has_key(entries, name),
        |name: IdentView| entries[index_of(entries, name)].1,
    )
}

/// Where `ident` is a key of `entries`, if anywhere.
pub fn position<V>(entries: &Vec<(Ident, V)>, ident: &Ident) -> (res: Option<usize>)
    ensures
        res matches Some(k) ==> k < entries.len() && entries[k as int].0@ == ident@,
        res is None ==> !has_key(entries@, ident@),
{
    let mut i: usize = 0;
    while i < entries.len()
        invariant
            i <= entries.len(),
            forall|j: int| 0 <= j < i ==> (#[trigger] entries[j]).0@ != ident@,
        decreases entries.len() - i,
    {
        if entries[i].0.same(ident) {
            return Some(i);
        }
        i += 1;
    }
    None
}

/// Puts `value` under `ident`, in place of what was there.
pub fn put<V>(entries: &mut Vec<(Ident, V)>, ident: Ident, value: V)
    requires
        keys_distinct(old(entries)@),
    ensures
        keys_distinct(final(entries)@),
        table_map(final(entries)@) == table_map(old(entries)@).insert(ident@, value),
{
    let ghost before = entries@;
    let ghost name = ident@;
    match position(entries, &ident) {
        Some(k) => {
            entries.set(k, (ident, value));
            proof {
                let after = entries@;
                assert forall|n: IdentView| has_key(after, n) == has_key(before, n) by {
                    if has_key(after, n) {
                        let i = index_of(after, n);
                        assert(before[i].0@ == n);
                    }
                    if has_key(before, n) {
                        let i = index_of(before, n);
                        assert(after[i].0@ == n);
                    }
                }
                assert(has_key(before, name)) by {
                    assert(before[k as int].0@ == name);
                }
                assert forall|n: IdentView| has_key(after, n) implies table_map(after)[n]
                    == table_map(before).insert(name, value)[n] by {
                    let i = index_of(after, n);
                    if n == name {
                        assert(i == k) by {
                            if i < k {
                                assert(after[i].0@ != after[k as int].0@);
                            } else if i > k {
                                assert(after[k as int].0@ != after[i].0@);
                            }
                        }
                    } else {
                        let j = index_of(before, n);
                        assert(before[i].0@ == n);
                        assert(i == j) by {
                            if i < j {
                                assert(before[i].0@ != before[j].0@);
                            } else if i > j {
                                assert(before[j].0@ != before[i].0@);
                            }
                        }
                    }
                }
                assert(table_map(after) =~= table_map(before).insert(name, value));
            }
        },
        None => {
            entries.push((ident, value));
            proof {
                let after = entries@;
                let last = before.len() as int;
                assert forall|n: IdentView| has_key(after, n) == (has_key(before, n) || n
                    == name) by {
                    if has_key(after, n) {
                        let i = index_of(after, n);
                        if i < last {
                            assert(before[i].0@ == n);
                        }
                    }
                    if has_key(before, n) {
                        let i = index_of(before, n);
                        assert(after[i].0@ == n);
                    }
                    if n == name {
                        assert(after[last].0@ == n);
                    }
                }
                assert forall|n: IdentView| has_key(after, n) implies table_map(after)[n]
                    == table_map(before).insert(name, value)[n] by {
                    let i = index_of(after, n);
                    if n == name {
                        if i < last {
                            assert(before[i].0@ == n);
                        }
                    } else {
                        let j = index_of(before, n);
                        assert(after[j].0@ == n);
                        assert(i == j) by {
                            if i < j {
                                assert(after[i].0@ != after[j].0@);
                            } else if i > j {
                                assert(after[j].0@ != after[i].0@);
                            }
                        }
                    }
                }
                assert(table_map(after) =~= table_map(before).insert(name, value));
            }
        },
    }
}

impl HoistedScopeData {
    /// A table that declares nothing.
    pub fn new() -> (data: HoistedScopeData)
        ensures
            data.wf(),
            data.vars@.len() == 0,
            data.funcs@.len() == 0,
    {
        HoistedScopeData { vars: Vec::new(), funcs: Vec::new() }
    }

    /// Each table holds a name once.
    pub open spec fn wf(&self) -> bool {
        keys_distinct(self.vars@) && keys_distinct(self.funcs@)
    }

    /// The variables by name.
    pub open spec fn var_map(&self) -> Map<IdentView, Spanned<Var>> {
        table_map(self.vars@)
    }

    /// The functions by name.
    pub open spec fn func_map(&self) -> Map<IdentView, Spanned<HoistedFunc>> {
        table_map(self.funcs@)
    }
}

impl HoistedScopeData {
    /// The two tables as one; where both declare a name, the declaration
    /// of `self` stays, the last one if `self` has several.
    pub fn merge(self, rhs: HoistedScopeData) -> (res: HoistedScopeData)
        requires
            rhs.wf(),
        ensures
            res.wf(),
            res.var_map() == rhs.var_map().union_prefer_right(fold_map(self.vars@)),
            res.func_map() == rhs.func_map().union_prefer_right(fold_map(self.funcs@)),
    {
        let mut out = rhs;
        let vars = merge_into(self.vars, out.vars);
        let funcs = merge_into(self.funcs, out.funcs);
        HoistedScopeData { vars, funcs }
    }
}

/// Puts the entries of `from`, in order, into `into`.
pub fn merge_into<V>(from: Vec<(Ident, V)>, into: Vec<(Ident, V)>) -> (res: Vec<(Ident, V)>)
    requires
        keys_distinct(into@),
    ensures
        keys_distinct(res@),
        table_map(res@) == table_map(into@).union_prefer_right(fold_map(from@)),
{
    let ghost start = table_map(into@);
    let ghost all = from@;
    let mut res = into;
    let mut rest = from;
    let ghost mut done: Seq<(Ident, V)> = Seq::empty();
    assert(table_map(res@) =~= start.union_prefer_right(fold_map(done)));
    while rest.len() > 0
        invariant
            keys_distinct(res@),
            done + rest@ == all,
            table_map(res@) == start.union_prefer_right(fold_map(done)),
        decreases rest.len(),
    {
        let ghost before = rest@;
        let entry = rest.remove(0);
        let (ident, value) = entry;
        put(&mut res, ident, value);
        proof {
            assert(before =~= seq![entry] + rest@);
            assert(done.push(entry) + rest@ =~= all);
            assert(fold_map(done.push(entry)) == fold_map(done).insert(entry.0@, entry.1)) by {
                assert(done.push(entry).drop_last() =~= done);
            }
            assert(start.union_prefer_right(fold_map(done)).insert(entry.0@, entry.1)
                =~= start.union_prefer_right(fold_map(done).insert(entry.0@, entry.1)));
            done = done.push(entry);
        }
    }
    proof {
        assert(rest@ =~= Seq::empty());
        assert(done =~= all);
    }
    res
}

/// The entries as a map from names to values, later entries over earlier
/// ones.
pub open spec fn fold_map<V>(entries: Seq<(Ident, V)>) -> Map<IdentView, V>
    decreases entries.len(),
{
    if entries.len() == 0 {
        Map::empty()
    } else {
        fold_map(entries.drop_last()).insert(entries.last().0@, entries.last().1)
    }
}

impl Default for HoistedScopeData {
    fn default() -> (data: HoistedScopeData)
        ensures
            data.wf(),
            data.vars@.len() == 0,
            data.funcs@.len() == 0,
    {
        HoistedScopeData::new()
    }
}

impl HoistedScope {
    /// A scope without statements that declares nothing.
    pub fn new() -> (scope: HoistedScope)
        ensures
            scope.data.wf(),
            scope.stmts@.len() == 0,
            scope.data.vars@.len() == 0,
            scope.data.funcs@.len() == 0,
    {
        HoistedScope { stmts: Vec::new(), data: HoistedScopeData::new() }
    }

    /// Records the variable `ident`; an earlier one of that name gives
    /// way.
    pub fn add_var(&mut self, ident: Ident, var: Spanned<Var>)
        requires
            old(self).data.wf(),
        ensures
            final(self).data.wf(),
            final(self).data.var_map() == old(self).data.var_map().insert(ident@, var),
            final(self).data.funcs == old(self).data.funcs,
            final(self).stmts == old(self).stmts,
    {
        put(&mut self.data.vars, ident, var);
    }

    /// Records the function `ident`; an earlier one of that name gives
    /// way.
    pub fn add_func(&mut self, ident: Ident, func: Spanned<HoistedFunc>)
        requires
            old(self).data.wf(),
        ensures
            final(self).data.wf(),
            final(self).data.func_map() == old(self).data.func_map().insert(ident@, func),
            final(self).data.vars == old(self).data.vars,
            final(self).stmts == old(self).stmts,
    {
        put(&mut self.data.funcs, ident, func);
    }
}

/// Whether `h` is the expression `p` with every scope in it hoisted: the
/// same tree, spans and leaves.
pub open spec fn expr_hoisted(p: ParserExpr, h: HoistedExpr) -> bool
    decreases p,
{
    match p {
        Expr::NumberLiteral(x) => h matches Expr::NumberLiteral(y) && y@ == x@,
        Expr::Identifier(x) => h matches Expr::Identifier(y) && y@ == x@,
        Expr::BinaryOp(l, op, r) => h matches Expr::BinaryOp(hl, hop, hr) && hop == op
            && sexpr_hoisted(*l, *hl) && sexpr_hoisted(*r, *hr),
        Expr::UnaryOp(op, v) => h matches Expr::UnaryOp(hop, hv) && hop == op && sexpr_hoisted(
            *v,
            *hv,
        ),
        Expr::Scope(s) => h matches Expr::Scope(hs) && scope_hoisted(s, hs),
        Expr::Call { callee, generics, args } => h matches Expr::Call {
            callee: hc,
            generics: hg,
            args: ha,
        } && sexpr_hoisted(*callee, *hc) && (match generics {
            Some(g) => hg matches Some(g2) && spanned_types_view(g2@) == spanned_types_view(g@),
            None => hg is None,
        }) && exprs_hoisted(args@, ha@),
    }
}

/// [`expr_hoisted`] of the values, and the same span.
pub open spec fn sexpr_hoisted(p: Spanned<ParserExpr>, h: Spanned<HoistedExpr>) -> bool
    decreases p,
{
    p.span == h.span && expr_hoisted(p.value, h.value)
}

/// [`sexpr_hoisted`], one by one.
pub open spec fn exprs_hoisted(ps: Seq<Spanned<ParserExpr>>, hs: Seq<Spanned<HoistedExpr>>) -> bool
    decreases ps,
{
    ps.len() == hs.len() && (ps.len() == 0 || (sexpr_hoisted(ps.last(), hs.last())
        && exprs_hoisted(ps.drop_last(), hs.drop_last())))
}

/// [`sexpr_hoisted`] of an expression that may be missing.
pub open spec fn opt_expr_hoisted(
    p: Option<Spanned<ParserExpr>>,
    h: Option<Spanned<HoistedExpr>>,
) -> bool
    decreases p,
{
    match p {
        Some(e) => h matches Some(he) && sexpr_hoisted(e, he),
        None => h is None,
    }
}

/// Whether `h` is the statement `p`, which is no function, hoisted.
pub open spec fn stmt_hoisted(p: Spanned<ParserStmt>, h: Spanned<HoistedStmt>) -> bool
    decreases p,
{
    p.span == h.span && match p.value {
        Stmt::Create { ty_id, mutable, value } => h.value matches Stmt::Create {
            ty_id: t2,
            mutable: m2,
            value: v2,
        } && t2.span == ty_id.span && t2.value@ == ty_id.value@ && m2 == mutable
            && opt_expr_hoisted(value, v2),
        Stmt::Assign { id, value } => h.value matches Stmt::Assign { id: i2, value: v2 }
            && i2.span == id.span && i2.value@ == id.value@ && sexpr_hoisted(value, v2),
        Stmt::Func { .. } => false,
        Stmt::Return { value, is_yield } => h.value matches Stmt::Return {
            value: v2,
            is_yield: y2,
        } && y2 == is_yield && sexpr_hoisted(value, v2),
    }
}

/// Whether `hs` are the statements of `ps` that are no functions, each
/// hoisted, in their order.
pub open spec fn stmts_hoisted(ps: Seq<Spanned<ParserStmt>>, hs: Seq<Spanned<HoistedStmt>>) -> bool
    decreases ps,
{
    if ps.len() == 0 {
        hs.len() == 0
    } else if ps.last().value is Func {
        stmts_hoisted(ps.drop_last(), hs)
    } else {
        hs.len() > 0 && stmt_hoisted(ps.last(), hs.last()) && stmts_hoisted(
            ps.drop_last(),
            hs.drop_last(),
        )
    }
}

/// Whether `e` is the table entry of the function statement `p`: name and
/// signature as written, the body hoisted, at the span of the name.
pub open spec fn func_hoisted(p: Spanned<ParserStmt>, e: Spanned<HoistedFunc>) -> bool
    decreases p,
{
    match p.value {
        Stmt::Func { id, signature, body } => e.span == id.span && e.value.id.span == id.span
            && e.value.id.value@ == id.value@ && e.value.signature@ == signature@ && (match body {
            Some(b) => e.value.body matches Some(hb) && hb.span == b.span && scope_hoisted(
                b.value,
                hb.value,
            ),
            None => e.value.body is None,
        }),
        _ => false,
    }
}

/// Whether `m` holds, for every function of `ps` whose name is not in
/// `seen`, the entry of the last function of that name, and beside the
/// names in `seen` nothing else.
pub open spec fn funcs_hoisted(
    ps: Seq<Spanned<ParserStmt>>,
    m: Map<IdentView, Spanned<HoistedFunc>>,
    seen: Set<IdentView>,
) -> bool
    decreases ps,
{
    if ps.len() == 0 {
        m.dom() =~= seen
    } else {
        match ps.last().value {
            Stmt::Func { id, .. } => if seen.contains(id.value@) {
                funcs_hoisted(ps.drop_last(), m, seen)
            } else {
                m.contains_key(id.value@) && func_hoisted(ps.last(), m[id.value@])
                    && funcs_hoisted(ps.drop_last(), m, seen.insert(id.value@))
            },
            _ => funcs_hoisted(ps.drop_last(), m, seen),
        }
    }
}

/// The variables that the statements `ps` declare, by name; of two with
/// one name the later.
pub open spec fn declared_vars(ps: Seq<Spanned<ParserStmt>>) -> Map<IdentView, Spanned<VarView>>
    decreases ps.len(),
{
    if ps.len() == 0 {
        Map::empty()
    } else {
        let rest = declared_vars(ps.drop_last());
        match ps.last().value {
            Stmt::Create { ty_id, mutable, .. } => rest.insert(
                ty_id.value.ident.value@,
                Spanned { span: ps.last().span, value: VarView { ty: ty_id.value.ty.value@, mutable } },
            ),
            _ => rest,
        }
    }
}

/// The variables of a table, by name, as specification values.
pub open spec fn vars_view(m: Map<IdentView, Spanned<Var>>) -> Map<IdentView, Spanned<VarView>> {
    m.map_values(|v: Spanned<Var>| Spanned { span: v.span, value: v.value@ })
}

/// Whether `h` is the scope `p` hoisted: the statements that are no
/// functions stay, in order; the table holds the variables the statements
/// declare and the functions that left.
pub open spec fn scope_hoisted(p: ParserScope, h: HoistedScope) -> bool
    decreases p,
{
    &&& h.data.wf()
    &&& stmts_hoisted(p.stmts@, h.stmts@)
    &&& vars_view(h.data.var_map()) == declared_vars(p.stmts@)
    &&& funcs_hoisted(p.stmts@, h.data.func_map(), Set::empty())
}

/// A later function of the name `n` takes the place of the entries of
/// that name.
pub proof fn lemma_funcs_override(
    ps: Seq<Spanned<ParserStmt>>,
    m: Map<IdentView, Spanned<HoistedFunc>>,
    seen: Set<IdentView>,
    n: IdentView,
    e: Spanned<HoistedFunc>,
)
    requires
        funcs_hoisted(ps, m, seen),
    ensures
        funcs_hoisted(ps, m.insert(n, e), seen.insert(n)),
    decreases ps.len(),
{
    if ps.len() == 0 {
        assert(m.insert(n, e).dom() =~= seen.insert(n));
    } else {
        match ps.last().value {
            Stmt::Func { id, .. } => {
                let k = id.value@;
                if seen.contains(k) {
                    lemma_funcs_override(ps.drop_last(), m, seen, n, e);
                } else {
                    lemma_funcs_override(ps.drop_last(), m, seen.insert(k), n, e);
                    if k == n {
                        assert(seen.insert(k).insert(n) =~= seen.insert(n));
                    } else {
                        assert(seen.insert(k).insert(n) =~= seen.insert(n).insert(k));
                    }
                }
            },
            _ => {
                lemma_funcs_override(ps.drop_last(), m, seen, n, e);
            },
        }
    }
}

/// The functions in the table of a hoisted scope are the functions the
/// scope declares: a name has an entry exactly if some statement of the
/// scope is a function of that name.
pub proof fn lemma_funcs_complete(
    ps: Seq<Spanned<ParserStmt>>,
    m: Map<IdentView, Spanned<HoistedFunc>>,
    seen: Set<IdentView>,
    i: int,
)
    requires
        funcs_hoisted(ps, m, seen),
        0 <= i < ps.len(),
        ps[i].value is Func,
    ensures
        m.contains_key(ps[i].value->Func_id.value@),
    decreases ps.len(),
{
    let name = ps[i].value->Func_id.value@;
    if i == ps.len() - 1 {
        if seen.contains(name) {
            lemma_funcs_seen(ps.drop_last(), m, seen, name);
        }
    } else {
        match ps.last().value {
            Stmt::Func { id, .. } => {
                if seen.contains(id.value@) {
                    lemma_funcs_complete(ps.drop_last(), m, seen, i);
                } else {
                    lemma_funcs_complete(ps.drop_last(), m, seen.insert(id.value@), i);
                }
            },
            _ => {
                lemma_funcs_complete(ps.drop_last(), m, seen, i);
            },
        }
    }
}

/// The names in `seen` have entries.
pub proof fn lemma_funcs_seen(
    ps: Seq<Spanned<ParserStmt>>,
    m: Map<IdentView, Spanned<HoistedFunc>>,
    seen: Set<IdentView>,
    name: IdentView,
)
    requires
        funcs_hoisted(ps, m, seen),
        seen.contains(name),
    ensures
        m.contains_key(name),
    decreases ps.len(),
{
    if ps.len() > 0 {
        match ps.last().value {
            Stmt::Func { id, .. } => {
                if seen.contains(id.value@) {
                    lemma_funcs_seen(ps.drop_last(), m, seen, name);
                } else {
                    lemma_funcs_seen(ps.drop_last(), m, seen.insert(id.value@), name);
                }
            },
            _ => {
                lemma_funcs_seen(ps.drop_last(), m, seen, name);
            },
        }
    }
}

/// No function is left among hoisted statements.
pub proof fn lemma_no_func_left(ps: Seq<Spanned<ParserStmt>>, hs: Seq<Spanned<HoistedStmt>>, k: int)
    requires
        stmts_hoisted(ps, hs),
        0 <= k < hs.len(),
    ensures
        !(hs[k].value is Func),
    decreases ps.len(),
{
    if ps.len() > 0 {
        if ps.last().value is Func {
            lemma_no_func_left(ps.drop_last(), hs, k);
        } else if k < hs.len() - 1 {
            lemma_no_func_left(ps.drop_last(), hs.drop_last(), k);
            assert(hs.drop_last()[k] == hs[k]);
        } else {
            assert(stmt_hoisted(ps.last(), hs.last()));
            match ps.last().value {
                Stmt::Create { .. } => {},
                Stmt::Assign { .. } => {},
                Stmt::Func { .. } => {},
                Stmt::Return { .. } => {},
            }
        }
    }
}

fn hoist_expr(e: &ParserExpr) -> (h: HoistedExpr)
    ensures
        expr_hoisted(*e, h),
    decreases e,
{
    match e {
        Expr::NumberLiteral(x) => Expr::NumberLiteral(x.clone()),
        Expr::Identifier(x) => Expr::Identifier(x.clone()),
        Expr::BinaryOp(l, op, r) => {
            let hl = hoist_sexpr(&**l);
            let hr = hoist_sexpr(&**r);
            Expr::BinaryOp(Box::new(hl), *op, Box::new(hr))
        },
        Expr::UnaryOp(op, v) => {
            let hv = hoist_sexpr(&**v);
            Expr::UnaryOp(*op, Box::new(hv))
        },
        Expr::Scope(s) => Expr::Scope(hoist_scope(s)),
        Expr::Call { callee, generics, args } => {
            let hc = hoist_sexpr(&**callee);
            let hg = match generics {
                Some(g) => Some(clone_spanned_types(g)),
                None => None,
            };
            let ha = hoist_exprs(args);
            Expr::Call { callee: Box::new(hc), generics: hg, args: ha }
        },
    }
}

fn hoist_sexpr(e: &Spanned<ParserExpr>) -> (h: Spanned<HoistedExpr>)
    ensures
        sexpr_hoisted(*e, h),
    decreases e,
{
    Spanned { span: e.span, value: hoist_expr(&e.value) }
}

fn hoist_exprs(v: &Vec<Spanned<ParserExpr>>) -> (out: Vec<Spanned<HoistedExpr>>)
    ensures
        exprs_hoisted(v@, out@),
    decreases v,
{
    let mut out: Vec<Spanned<HoistedExpr>> = Vec::new();
    let mut i: usize = 0;
    assert(v@.take(0) =~= Seq::empty());
    while i < v.len()
        invariant
            forall|j: int| 0 <= j < v.len() ==> decreases_to!(v => #[trigger] v[j]),
            i <= v.len(),
            out.len() == i,
            exprs_hoisted(v@.take(i as int), out@),
        decreases v.len() - i,
    {
        let ghost before = out@;
        let h = hoist_sexpr(&v[i]);
        out.push(h);
        proof {
            let next = v@.take(i + 1);
            assert(next.drop_last() =~= v@.take(i as int));
            assert(out@.drop_last() =~= before);
            assert(next.last() == v[i as int]);
        }
        i += 1;
    }
    assert(v@.take(i as int) =~= v@);
    out
}

/// Hoists one statement into `scope`: a function goes into the table and
/// leaves the statements, a declaration stays and is recorded, anything
/// else stays.
fn hoist_stmt(stmt: &Spanned<ParserStmt>, scope: &mut HoistedScope) -> (res: Option<
    Spanned<HoistedStmt>,
>)
    requires
        old(scope).data.wf(),
    ensures
        final(scope).data.wf(),
        final(scope).stmts == old(scope).stmts,
        match stmt.value {
            Stmt::Func { id, .. } => res is None && final(scope).data.vars == old(scope).data.vars
                && exists|e: Spanned<HoistedFunc>|
                func_hoisted(*stmt, e) && final(scope).data.func_map() == old(
                    scope,
                ).data.func_map().insert(id.value@, e),
            Stmt::Create { ty_id, mutable, .. } => res matches Some(h) && stmt_hoisted(*stmt, h)
                && final(scope).data.funcs == old(scope).data.funcs && vars_view(
                final(scope).data.var_map(),
            ) == vars_view(old(scope).data.var_map()).insert(
                ty_id.value.ident.value@,
                Spanned {
                    span: stmt.span,
                    value: VarView { ty: ty_id.value.ty.value@, mutable },
                },
            ),
            _ => res matches Some(h) && stmt_hoisted(*stmt, h) && final(scope).data == old(
                scope,
            ).data,
        },
    decreases stmt,
{
    match &stmt.value {
        Stmt::Create { ty_id, mutable, value } => {
            let ident = ty_id.value.ident.value.clone();
            let ty = ty_id.value.ty.value.clone();
            let var = Spanned { span: stmt.span, value: Var { ty, mutable: *mutable } };
            let ghost before = scope.data.var_map();
            scope.add_var(ident, var);
            proof {
                assert(vars_view(before.insert(ident@, var)) =~= vars_view(before).insert(
                    ident@,
                    Spanned { span: var.span, value: var.value@ },
                ));
            }
            let hv = match value {
                Some(v) => Some(hoist_sexpr(v)),
                None => None,
            };
            Some(
                Spanned {
                    span: stmt.span,
                    value: Stmt::Create {
                        ty_id: Spanned { span: ty_id.span, value: ty_id.value.clone() },
                        mutable: *mutable,
                        value: hv,
                    },
                },
            )
        },
        Stmt::Assign { id, value } => Some(
            Spanned {
                span: stmt.span,
                value: Stmt::Assign {
                    id: Spanned { span: id.span, value: id.value.clone() },
                    value: hoist_sexpr(value),
                },
            },
        ),
        Stmt::Func { id, signature, body } => {
            let hb = match body {
                Some(b) => Some(Spanned { span: b.span, value: hoist_scope(&b.value) }),
                None => None,
            };
            let entry = Spanned {
                span: id.span,
                value: Func {
                    id: Spanned { span: id.span, value: id.value.clone() },
                    signature: signature.clone(),
                    body: hb,
                },
            };
            assert(func_hoisted(*stmt, entry));
            scope.add_func(id.value.clone(), entry);
            None
        },
        Stmt::Return { value, is_yield } => Some(
            Spanned {
                span: stmt.span,
                value: Stmt::Return { value: hoist_sexpr(value), is_yield: *is_yield },
            },
        ),
    }
}

fn hoist_scope(p: &ParserScope) -> (h: HoistedScope)
    ensures
        scope_hoisted(*p, h),
    decreases p,
{
    let mut scope = HoistedScope::new();
    let mut i: usize = 0;
    proof {
        assert(p.stmts@.take(0) =~= Seq::empty());
        assert(vars_view(scope.data.var_map()) =~= declared_vars(p.stmts@.take(0)));
        assert(scope.data.func_map().dom() =~= Set::empty());
    }
    while i < p.stmts.len()
        invariant
            forall|j: int| 0 <= j < p.stmts.len() ==> decreases_to!(p => #[trigger] p.stmts[j]),
            i <= p.stmts.len(),
            scope.data.wf(),
            stmts_hoisted(p.stmts@.take(i as int), scope.stmts@),
            vars_view(scope.data.var_map()) == declared_vars(p.stmts@.take(i as int)),
            funcs_hoisted(p.stmts@.take(i as int), scope.data.func_map(), Set::empty()),
        decreases p.stmts.len() - i,
    {
        let ghost before = scope;
        let ghost prev = p.stmts@.take(i as int);
        let ghost next = p.stmts@.take(i + 1);
        proof {
            assert(next.drop_last() =~= prev);
            assert(next.last() == p.stmts[i as int]);
        }
        let res = hoist_stmt(&p.stmts[i], &mut scope);
        proof {
            match p.stmts[i as int].value {
                Stmt::Func { id, .. } => {
                    let e = choose|e: Spanned<HoistedFunc>|
                        func_hoisted(p.stmts[i as int], e) && scope.data.func_map()
                            == before.data.func_map().insert(id.value@, e);
                    lemma_funcs_override(
                        prev,
                        before.data.func_map(),
                        Set::empty(),
                        id.value@,
                        e,
                    );
                    assert(Set::<IdentView>::empty().insert(id.value@).contains(id.value@));
                },
                _ => {},
            }
        }
        match res {
            Some(h) => {
                let ghost kept = scope.stmts@;
                scope.stmts.push(h);
                proof {
                    assert(scope.stmts@.drop_last() =~= kept);
                }
            },
            None => {},
        }
        i += 1;
    }
    assert(p.stmts@.take(i as int) =~= p.stmts@);
    scope
}

/// Hoists a parsed scope, and every scope in it.
pub fn hoist(scope: &ParserScope) -> (hoisted: HoistedScope)
    ensures
        scope_hoisted(*scope, hoisted),
{
    hoist_scope(scope)
}

} // verus!
