//! How a hoisted program is written.

use crate::common::display::{literal_text, signature_text, type_text, typed_ident_text};
use crate::common::expr::Expr;
use crate::common::func::{spanned_types_view, Func};
use crate::common::ident::{ident_text, Ident};
use crate::common::join::{comma_wrapped, Join};
use crate::common::span::Spanned;
use crate::common::stmt::Stmt;
use crate::common::text::texts;
use crate::common::types::{Type, TypeView};
use crate::hoister::{HoistedExpr, HoistedFunc, HoistedScope, HoistedStmt};
use crate::lexer::chars_of;
use vstd::prelude::*;
use vstd::string::StringExecFns;

verus! {

/// The text with a tab after each of its line breaks.
pub open spec fn tabbed(s: Seq<char>) -> Seq<char>
    decreases s.len(),
{
    if s.len() == 0 {
        Seq::empty()
    } else {
        tabbed(s.drop_last()) + (if s.last() == '\n' {
            seq!['\n', '\t']
        } else {
            seq![s.last()]
        })
    }
}

/// The text one level deeper: a tab before each of its lines, and a line
/// break after the last.
pub open spec fn indented(s: Seq<char>) -> Seq<char> {
    seq!['\t'] + tabbed(s) + seq!['\n']
}

/// Appends `text`, one level deeper, to `out`.
pub fn append_indented(out: &mut String, text: &str)
    ensures
        final(out)@ == old(out)@ + indented(text@),
{
    let chars = chars_of(text);
    out.push('\t');
    let mut i: usize = 0;
    assert(chars@.take(0) =~= Seq::<char>::empty());
    assert(out@ =~= old(out)@ + seq!['\t'] + tabbed(chars@.take(0)));
    while i < chars.len()
        invariant
            i <= chars.len(),
            out@ == old(out)@ + seq!['\t'] + tabbed(chars@.take(i as int)),
        decreases chars.len() - i,
    {
        let ghost before = out@;
        let c = chars[i];
        out.push(c);
        if c == '\n' {
            out.push('\t');
        }
        proof {
            let next = chars@.take(i + 1);
            assert(next.drop_last() =~= chars@.take(i as int));
            assert(next.last() == c);
            assert(out@ =~= old(out)@ + seq!['\t'] + tabbed(next));
        }
        i += 1;
    }
    assert(chars@.take(i as int) =~= chars@);
    out.push('\n');
    assert(out@ =~= old(out)@ + indented(text@));
}

/// How the types of a list are written, one by one.
pub open spec fn stypes_texts(types: Seq<Spanned<TypeView>>) -> Seq<Seq<char>> {
    Seq::new(types.len(), |i: int| type_text(types[i].value))
}

/// How expressions are written, one by one.
pub open spec fn exprs_texts(es: Seq<Spanned<HoistedExpr>>) -> Seq<Seq<char>>
    decreases es,
{
    if es.len() == 0 {
        Seq::empty()
    } else {
        exprs_texts(es.drop_last()).push(expr_text(es.last().value))
    }
}

/// How an expression is written: operations in parentheses, a call as
/// the callee in parentheses with the generics in angle brackets and the
/// arguments in parentheses after it.
pub open spec fn expr_text(e: HoistedExpr) -> Seq<char>
    decreases e,
{
    match e {
        Expr::NumberLiteral(n) => literal_text(n@),
        Expr::Identifier(i) => ident_text(i@),
        Expr::BinaryOp(l, op, r) => "("@ + expr_text(l.value) + " "@ + op.value.text_spec() + " "@
            + expr_text(r.value) + ")"@,
        Expr::UnaryOp(op, v) => "("@ + op.value.text_spec() + expr_text(v.value) + ")"@,
        Expr::Scope(s) => scope_text(s),
        Expr::Call { callee, generics, args } => "("@ + expr_text(callee.value) + ")"@ + (
        match generics {
            Some(g) => comma_wrapped(stypes_texts(spanned_types_view(g@)), "<"@, ">"@),
            None => Seq::empty(),
        }) + comma_wrapped(exprs_texts(args@), "("@, ")"@),
    }
}

/// How a statement is written.
pub open spec fn stmt_text(s: HoistedStmt) -> Seq<char>
    decreases s,
{
    match s {
        Stmt::Create { ty_id, mutable, value } => (if mutable {
            "mut "@
        } else {
            Seq::empty()
        }) + typed_ident_text(ty_id.value@) + (match value {
            Some(v) => " = "@ + expr_text(v.value),
            None => Seq::empty(),
        }),
        Stmt::Assign { id, value } => ident_text(id.value@) + " = "@ + expr_text(value.value),
        Stmt::Func { id, signature, body } => "func "@ + ident_text(id.value@) + " ["@
            + signature_text(signature@) + "]"@ + (match body {
            Some(b) => " "@ + scope_text(b.value),
            None => ";"@,
        }),
        Stmt::Return { value, is_yield } => (if is_yield {
            "yield"@
        } else {
            "return"@
        }) + " "@ + expr_text(value.value),
    }
}

/// How statements are written: each one level deeper, one after the
/// other.
pub open spec fn stmts_text(ss: Seq<Spanned<HoistedStmt>>) -> Seq<char>
    decreases ss,
{
    if ss.len() == 0 {
        Seq::empty()
    } else {
        stmts_text(ss.drop_last()) + indented(stmt_text(ss.last().value))
    }
}

/// How a function of a table is written: its name, its signature in
/// square brackets, and its body.
pub open spec fn func_text(f: HoistedFunc) -> Seq<char>
    decreases f,
{
    ident_text(f.id.value@) + " ["@ + signature_text(f.signature@) + "] "@ + (match f.body {
        Some(b) => scope_text(b.value),
        None => Seq::empty(),
    })
}

/// How the functions of a table are written: each under its key, one
/// level deeper, one after the other.
pub open spec fn funcs_text(fs: Seq<(Ident, Spanned<HoistedFunc>)>) -> Seq<char>
    decreases fs,
{
    if fs.len() == 0 {
        Seq::empty()
    } else {
        funcs_text(fs.drop_last()) + indented(
            ident_text(fs.last().0@) + " => "@ + func_text(fs.last().1.value),
        )
    }
}

/// How a scope is written: its statements in braces, then the functions
/// of its table.
pub open spec fn scope_text(scope: HoistedScope) -> Seq<char>
    decreases scope,
{
    "{\n"@ + stmts_text(scope.stmts@) + "}"@ + "\n"@ + funcs_text(scope.data.funcs@)
}

/// Writes the types of a list, one by one.
fn write_types(types: &Vec<Spanned<Type>>) -> (out: Vec<String>)
    ensures
        texts(out@) == stypes_texts(spanned_types_view(types@)),
{
    let mut out: Vec<String> = Vec::new();
    let mut i: usize = 0;
    while i < types.len()
        invariant
            i <= types.len(),
            out.len() == i,
            forall|j: int| 0 <= j < i ==> (#[trigger] out[j])@ == type_text(types[j].value@),
        decreases types.len() - i,
    {
        out.push(types[i].value.to_string());
        i += 1;
    }
    assert(texts(out@) =~= stypes_texts(spanned_types_view(types@)));
    out
}

/// Writes expressions, one by one.
fn write_exprs(es: &Vec<Spanned<HoistedExpr>>) -> (out: Vec<String>)
    ensures
        texts(out@) == exprs_texts(es@),
    decreases es,
{
    let mut out: Vec<String> = Vec::new();
    let mut i: usize = 0;
    assert(es@.take(0) =~= Seq::empty());
    assert(texts(out@) =~= exprs_texts(es@.take(0)));
    while i < es.len()
        invariant
            forall|j: int| 0 <= j < es.len() ==> decreases_to!(es => #[trigger] es[j]),
            i <= es.len(),
            texts(out@) == exprs_texts(es@.take(i as int)),
        decreases es.len() - i,
    {
        let ghost before = texts(out@);
        let text = write_expr(&es[i].value);
        out.push(text);
        proof {
            let next = es@.take(i + 1);
            assert(next.drop_last() =~= es@.take(i as int));
            assert(next.last() == es[i as int]);
            assert(texts(out@) =~= before.push(text@));
        }
        i += 1;
    }
    assert(es@.take(i as int) =~= es@);
    out
}

/// Writes an expression.
pub fn write_expr(e: &HoistedExpr) -> (s: String)
    ensures
        s@ == expr_text(*e),
    decreases e,
{
    match e {
        Expr::NumberLiteral(n) => n.to_string(),
        Expr::Identifier(i) => i.to_string(),
        Expr::BinaryOp(l, op, r) => {
            let mut s = String::from_str("(");
            let lhs = write_expr(&l.value);
            s.append(lhs.as_str());
            s.append(" ");
            let o = op.value.to_string();
            s.append(o.as_str());
            s.append(" ");
            let rhs = write_expr(&r.value);
            s.append(rhs.as_str());
            s.append(")");
            s
        },
        Expr::UnaryOp(op, v) => {
            let mut s = String::from_str("(");
            let o = op.value.to_string();
            s.append(o.as_str());
            let inner = write_expr(&v.value);
            s.append(inner.as_str());
            s.append(")");
            s
        },
        Expr::Scope(scope) => write_scope(scope),
        Expr::Call { callee, generics, args } => {
            let mut s = String::from_str("(");
            let c = write_expr(&callee.value);
            s.append(c.as_str());
            s.append(")");
            match generics {
                Some(g) => {
                    let types = write_types(g);
                    let wrapped = types.join_comma_wrapped("<", ">");
                    s.append(wrapped.as_str());
                },
                None => {
                    assert(s@ + Seq::<char>::empty() =~= s@);
                },
            }
            let list = write_exprs(args);
            let wrapped = list.join_comma_wrapped("(", ")");
            s.append(wrapped.as_str());
            s
        },
    }
}

/// Writes a statement.
pub fn write_stmt(stmt: &HoistedStmt) -> (s: String)
    ensures
        s@ == stmt_text(*stmt),
    decreases stmt,
{
    match stmt {
        Stmt::Create { ty_id, mutable, value } => {
            let mut s = String::new();
            if *mutable {
                s.append("mut ");
            }
            let t = ty_id.value.to_string();
            s.append(t.as_str());
            match value {
                Some(v) => {
                    s.append(" = ");
                    let text = write_expr(&v.value);
                    s.append(text.as_str());
                },
                None => {},
            }
            assert(s@ =~= stmt_text(*stmt));
            s
        },
        Stmt::Assign { id, value } => {
            let mut s = id.value.to_string();
            s.append(" = ");
            let text = write_expr(&value.value);
            s.append(text.as_str());
            s
        },
        Stmt::Func { id, signature, body } => {
            let mut s = String::from_str("func ");
            let name = id.value.to_string();
            s.append(name.as_str());
            s.append(" [");
            let sig = signature.to_string();
            s.append(sig.as_str());
            s.append("]");
            match body {
                Some(b) => {
                    s.append(" ");
                    let text = write_scope(&b.value);
                    s.append(text.as_str());
                },
                None => {
                    s.append(";");
                },
            }
            assert(s@ =~= stmt_text(*stmt));
            s
        },
        Stmt::Return { value, is_yield } => {
            let mut s = String::from_str(if *is_yield { "yield" } else { "return" });
            s.append(" ");
            let text = write_expr(&value.value);
            s.append(text.as_str());
            s
        },
    }
}

/// Writes a function of a table.
pub fn write_func(f: &HoistedFunc) -> (s: String)
    ensures
        s@ == func_text(*f),
    decreases f,
{
    let mut s = f.id.value.to_string();
    s.append(" [");
    let sig = f.signature.to_string();
    s.append(sig.as_str());
    s.append("] ");
    match &f.body {
        Some(b) => {
            let text = write_scope(&b.value);
            s.append(text.as_str());
        },
        None => {},
    }
    assert(s@ =~= func_text(*f));
    s
}

/// Writes a scope.
pub fn write_scope(scope: &HoistedScope) -> (s: String)
    ensures
        s@ == scope_text(*scope),
    decreases scope,
{
    let mut s = String::from_str("{\n");
    let mut i: usize = 0;
    assert(scope.stmts@.take(0) =~= Seq::empty());
    assert(s@ =~= "{\n"@ + stmts_text(scope.stmts@.take(0)));
    while i < scope.stmts.len()
        invariant
            forall|j: int|
                0 <= j < scope.stmts.len() ==> decreases_to!(scope => #[trigger] scope.stmts[j]),
            i <= scope.stmts.len(),
            s@ == "{\n"@ + stmts_text(scope.stmts@.take(i as int)),
        decreases scope.stmts.len() - i,
    {
        let text = write_stmt(&scope.stmts[i].value);
        append_indented(&mut s, text.as_str());
        proof {
            let next = scope.stmts@.take(i + 1);
            assert(next.drop_last() =~= scope.stmts@.take(i as int));
            assert(next.last() == scope.stmts[i as int]);
            assert(s@ =~= "{\n"@ + stmts_text(next));
        }
        i += 1;
    }
    assert(scope.stmts@.take(i as int) =~= scope.stmts@);
    s.append("}");
    s.append("\n");
    let ghost head = s@;
    let mut k: usize = 0;
    assert(scope.data.funcs@.take(0) =~= Seq::empty());
    assert(s@ =~= head + funcs_text(scope.data.funcs@.take(0)));
    while k < scope.data.funcs.len()
        invariant
            forall|j: int|
                0 <= j < scope.data.funcs.len() ==> decreases_to!(scope => #[trigger] scope.data.funcs[j]),
            k <= scope.data.funcs.len(),
            head == "{\n"@ + stmts_text(scope.stmts@) + "}"@ + "\n"@,
            s@ == head + funcs_text(scope.data.funcs@.take(k as int)),
        decreases scope.data.funcs.len() - k,
    {
        let entry = &scope.data.funcs[k];
        let mut line = entry.0.to_string();
        line.append(" => ");
        let text = write_func(&entry.1.value);
        line.append(text.as_str());
        append_indented(&mut s, line.as_str());
        proof {
            let next = scope.data.funcs@.take(k + 1);
            assert(next.drop_last() =~= scope.data.funcs@.take(k as int));
            assert(next.last() == scope.data.funcs[k as int]);
            assert(s@ =~= head + funcs_text(next));
        }
        k += 1;
    }
    assert(scope.data.funcs@.take(k as int) =~= scope.data.funcs@);
    s
}

impl HoistedScope {
    /// The scope as text: its statements in braces, each one level
    /// deeper, then the functions of its table.
    pub fn to_string(&self) -> (s: String)
        ensures
            s@ == scope_text(*self),
    {
        write_scope(self)
    }
}

} // verus!
