//! How a parsed program is written.

use crate::common::display::{literal_text, signature_text, type_text, typed_ident_text};
use crate::common::expr::Expr;
use crate::common::func::spanned_types_view;
use crate::common::ident::ident_text;
use crate::common::join::{comma_wrapped, Join};
use crate::common::span::Spanned;
use crate::common::stmt::Stmt;
use crate::common::text::texts;
use crate::common::types::Type;
use crate::hoister::display::{append_indented, indented, stypes_texts};
use crate::parser::types::{ParserExpr, ParserScope, ParserStmt};
use vstd::prelude::*;
use vstd::string::StringExecFns;

verus! {

/// How expressions are written, one by one.
pub open spec fn exprs_texts(es: Seq<Spanned<ParserExpr>>) -> Seq<Seq<char>>
    decreases es,
{
    if es.len() == 0 {
        Seq::empty()
    } else {
        exprs_texts(es.drop_last()).push(expr_text(es.last().value))
    }
}

/// How an expression is written: operations in parentheses, a call as
/// the callee in parentheses with the generics in angle brackets and the
/// arguments in parentheses after it.
pub open spec fn expr_text(e: ParserExpr) -> Seq<char>
    decreases e,
{
    match e {
        Expr::NumberLiteral(n) => literal_text(n@),
        Expr::Identifier(i) => ident_text(i@),
        Expr::BinaryOp(l, op, r) => "("@ + expr_text(l.value) + " "@ + op.value.text_spec() + " "@
            + expr_text(r.value) + ")"@,
        Expr::UnaryOp(op, v) => "("@ + op.value.text_spec() + expr_text(v.value) + ")"@,
        Expr::Scope(s) => scope_text(s),
        Expr::Call { callee, generics, args } => "("@ + expr_text(callee.value) + ")"@ + (
        match generics {
            Some(g) => comma_wrapped(stypes_texts(spanned_types_view(g@)), "<"@, ">"@),
            None => Seq::empty(),
        }) + comma_wrapped(exprs_texts(args@), "("@, ")"@),
    }
}

/// How a statement is written.
pub open spec fn stmt_text(s: ParserStmt) -> Seq<char>
    decreases s,
{
    match s {
        Stmt::Create { ty_id, mutable, value } => (if mutable {
            "mut "@
        } else {
            Seq::empty()
        }) + typed_ident_text(ty_id.value@) + (match value {
            Some(v) => " = "@ + expr_text(v.value),
            None => Seq::empty(),
        }),
        Stmt::Assign { id, value } => ident_text(id.value@) + " = "@ + expr_text(value.value),
        Stmt::Func { id, signature, body } => "func "@ + ident_text(id.value@) + " ["@
            + signature_text(signature@) + "]"@ + (match body {
            Some(b) => " "@ + scope_text(b.value),
            None => ";"@,
        }),
        Stmt::Return { value, is_yield } => (if is_yield {
            "yield"@
        } else {
            "return"@
        }) + " "@ + expr_text(value.value),
    }
}

/// How statements are written: each one level deeper, one after the
/// other.
pub open spec fn stmts_text(ss: Seq<Spanned<ParserStmt>>) -> Seq<char>
    decreases ss,
{
    if ss.len() == 0 {
        Seq::empty()
    } else {
        stmts_text(ss.drop_last()) + indented(stmt_text(ss.last().value))
    }
}

/// How a scope is written: its statements in braces.
pub open spec fn scope_text(scope: ParserScope) -> Seq<char>
    decreases scope,
{
    "{\n"@ + stmts_text(scope.stmts@) + "}"@
}

/// Writes the types of a list, one by one.
fn write_types(types: &Vec<Spanned<Type>>) -> (out: Vec<String>)
    ensures
        texts(out@) == stypes_texts(spanned_types_view(types@)),
{
    let mut out: Vec<String> = Vec::new();
    let mut i: usize = 0;
    while i < types.len()
        invariant
            i <= types.len(),
            out.len() == i,
            forall|j: int| 0 <= j < i ==> (#[trigger] out[j])@ == type_text(types[j].value@),
        decreases types.len() - i,
    {
        out.push(types[i].value.to_string());
        i += 1;
    }
    assert(texts(out@) =~= stypes_texts(spanned_types_view(types@)));
    out
}

/// Writes expressions, one by one.
fn write_exprs(es: &Vec<Spanned<ParserExpr>>) -> (out: Vec<String>)
    ensures
        texts(out@) == exprs_texts(es@),
    decreases es,
{
    let mut out: Vec<String> = Vec::new();
    let mut i: usize = 0;
    assert(es@.take(0) =~= Seq::empty());
    assert(texts(out@) =~= exprs_texts(es@.take(0)));
    while i < es.len()
        invariant
            forall|j: int| 0 <= j < es.len() ==> decreases_to!(es => #[trigger] es[j]),
            i <= es.len(),
            texts(out@) == exprs_texts(es@.take(i as int)),
        decreases es.len() - i,
    {
        let ghost before = texts(out@);
        let text = write_expr(&es[i].value);
        out.push(text);
        proof {
            let next = es@.take(i + 1);
            assert(next.drop_last() =~= es@.take(i as int));
            assert(next.last() == es[i as int]);
            assert(texts(out@) =~= before.push(text@));
        }
        i += 1;
    }
    assert(es@.take(i as int) =~= es@);
    out
}

/// Writes an expression.
pub fn write_expr(e: &ParserExpr) -> (s: String)
    ensures
        s@ == expr_text(*e),
    decreases e,
{
    match e {
        Expr::NumberLiteral(n) => n.to_string(),
        Expr::Identifier(i) => i.to_string(),
        Expr::BinaryOp(l, op, r) => {
            let mut s = String::from_str("(");
            let lhs = write_expr(&l.value);
            s.append(lhs.as_str());
            s.append(" ");
            let o = op.value.to_string();
            s.append(o.as_str());
            s.append(" ");
            let rhs = write_expr(&r.value);
            s.append(rhs.as_str());
            s.append(")");
            s
        },
        Expr::UnaryOp(op, v) => {
            let mut s = String::from_str("(");
            let o = op.value.to_string();
            s.append(o.as_str());
            let inner = write_expr(&v.value);
            s.append(inner.as_str());
            s.append(")");
            s
        },
        Expr::Scope(scope) => write_scope(scope),
        Expr::Call { callee, generics, args } => {
            let mut s = String::from_str("(");
            let c = write_expr(&callee.value);
            s.append(c.as_str());
            s.append(")");
            match generics {
                Some(g) => {
                    let types = write_types(g);
                    let wrapped = types.join_comma_wrapped("<", ">");
                    s.append(wrapped.as_str());
                },
                None => {
                    assert(s@ + Seq::<char>::empty() =~= s@);
                },
            }
            let list = write_exprs(args);
            let wrapped = list.join_comma_wrapped("(", ")");
            s.append(wrapped.as_str());
            s
        },
    }
}

/// Writes a statement.
pub fn write_stmt(stmt: &ParserStmt) -> (s: String)
    ensures
        s@ == stmt_text(*stmt),
    decreases stmt,
{
    match stmt {
        Stmt::Create { ty_id, mutable, value } => {
            let mut s = String::new();
            if *mutable {
                s.append("mut ");
            }
            let t = ty_id.value.to_string();
            s.append(t.as_str());
            match value {
                Some(v) => {
                    s.append(" = ");
                    let text = write_expr(&v.value);
                    s.append(text.as_str());
                },
                None => {},
            }
            assert(s@ =~= stmt_text(*stmt));
            s
        },
        Stmt::Assign { id, value } => {
            let mut s = id.value.to_string();
            s.append(" = ");
            let text = write_expr(&value.value);
            s.append(text.as_str());
            s
        },
        Stmt::Func { id, signature, body } => {
            let mut s = String::from_str("func ");
            let name = id.value.to_string();
            s.append(name.as_str());
            s.append(" [");
            let sig = signature.to_string();
            s.append(sig.as_str());
            s.append("]");
            match body {
                Some(b) => {
                    s.append(" ");
                    let text = write_scope(&b.value);
                    s.append(text.as_str());
                },
                None => {
                    s.append(";");
                },
            }
            assert(s@ =~= stmt_text(*stmt));
            s
        },
        Stmt::Return { value, is_yield } => {
            let mut s = String::from_str(if *is_yield { "yield" } else { "return" });
            s.append(" ");
            let text = write_expr(&value.value);
            s.append(text.as_str());
            s
        },
    }
}

/// Writes a scope.
pub fn write_scope(scope: &ParserScope) -> (s: String)
    ensures
        s@ == scope_text(*scope),
    decreases scope,
{
    let mut s = String::from_str("{\n");
    let mut i: usize = 0;
    assert(scope.stmts@.take(0) =~= Seq::empty());
    assert(s@ =~= "{\n"@ + stmts_text(scope.stmts@.take(0)));
    while i < scope.stmts.len()
        invariant
            forall|j: int|
                0 <= j < scope.stmts.len() ==> decreases_to!(scope => #[trigger] scope.stmts[j]),
            i <= scope.stmts.len(),
            s@ == "{\n"@ + stmts_text(scope.stmts@.take(i as int)),
        decreases scope.stmts.len() - i,
    {
        let text = write_stmt(&scope.stmts[i].value);
        append_indented(&mut s, text.as_str());
        proof {
            let next = scope.stmts@.take(i + 1);
            assert(next.drop_last() =~= scope.stmts@.take(i as int));
            assert(next.last() == scope.stmts[i as int]);
            assert(s@ =~= "{\n"@ + stmts_text(next));
        }
        i += 1;
    }
    assert(scope.stmts@.take(i as int) =~= scope.stmts@);
    s.append("}");
    s
}

impl ParserScope {
    /// The scope as text: its statements in braces, each one level
    /// deeper.
    pub fn to_string(&self) -> (s: String)
        ensures
            s@ == scope_text(*self),
    {
        write_scope(self)
    }
}

} // verus!
