//! The interactive loop's own logic: turning syntax trees back into source
//! text, and building the program a line of input runs as.
//!
//! Reading lines, compiling, linking and running the programs is left to
//! the program around the library.

use vstd::prelude::*;
use vstd::string::StringSliceAdditionalSpecFns;
use crate::ast::{
    base_text, binop_text, bool_text, ev, evf, evs, lemma_evf, lemma_evf_take, lemma_evs, lemma_evs_take, lemma_svs,
    lemma_svs_take, lv_v, svs, typed_names, unop_text, vbs, vb_v, BaseTypeV, Expr, ExprV, FuncDef, LValue, LValueV,
    ReturnType, ReturnTypeV, Stmt, StmtV, StructDef, Type, TypeV, VarBinding, VarBindingV,
};
use crate::error::ParseError;
use crate::lexer::{lex_from, stream_matches, boff, col_of, line_of, lex_error_msg, LexOutcome, Token};
use crate::parser::{err_matches, p_line, parse_line, too_long_msg, unplaced, LineResult, PR, DEFAULT_MAX_TOKENS};
use crate::stats::LexStats;
use crate::text::{push_str, string_of, text_eq};

verus! {

// ── Source text of syntax trees ─────────────────────────────────────────

pub open spec fn type_src(t: TypeV) -> Seq<char> {
    match t {
        TypeV::Base(b) => base_text(b),
        TypeV::Array(b) => "["@ + base_text(b) + "]"@,
    }
}

pub open spec fn ret_src(r: ReturnTypeV) -> Seq<char> {
    match r {
        ReturnTypeV::Single(t) => type_src(t),
        ReturnTypeV::Pair(a, b) => "("@ + type_src(a) + ", "@ + type_src(b) + ")"@,
    }
}

/// The source text of an expression.
pub open spec fn expr_src(e: ExprV) -> Seq<char>
    decreases e,
{
    match e {
        ExprV::IntLit(v, _) => v,
        ExprV::FloatLit(v, _) => v,
        ExprV::BoolLit(b, _) => bool_text(b),
        ExprV::StrLit(v, _) => "\""@ + v + "\""@,
        ExprV::Ident(n, _) => n,
        ExprV::Binary(l, op, r, _) => expr_src(*l) + " "@ + binop_text(op) + " "@ + expr_src(*r),
        ExprV::Unary(op, x, _) => unop_text(op) + expr_src(*x),
        ExprV::Call(f, args, _) => expr_src(*f) + "("@ + list_src(args) + ")"@,
        ExprV::Index(a, i, _) => expr_src(*a) + "["@ + expr_src(*i) + "]"@,
        ExprV::Field(o, f, _) => expr_src(*o) + "."@ + f,
        ExprV::StructLit(n, fs, _) => n + " { "@ + inits_src(fs) + " }"@,
        ExprV::ArrayLit(v, _) => "["@ + list_src(v) + "]"@,
    }
}

/// The expressions separated by `, `.
pub open spec fn list_src(s: Seq<ExprV>) -> Seq<char>
    decreases s,
{
    if s.len() == 0 {
        Seq::empty()
    } else if s.len() == 1 {
        expr_src(s[0])
    } else {
        list_src(s.drop_last()) + ", "@ + expr_src(s.last())
    }
}

/// The field initializers as `name:value`, separated by `, `.
pub open spec fn inits_src(s: Seq<(Seq<char>, ExprV)>) -> Seq<char>
    decreases s,
{
    if s.len() == 0 {
        Seq::empty()
    } else if s.len() == 1 {
        s[0].0 + ":"@ + expr_src(s[0].1)
    } else {
        inits_src(s.drop_last()) + ", "@ + s.last().0 + ":"@ + expr_src(s.last().1)
    }
}

pub open spec fn lvalue_src(l: LValueV) -> Seq<char> {
    match l {
        LValueV::Ident(n, _) => n,
        LValueV::Index(a, i, _) => expr_src(a) + "["@ + expr_src(i) + "]"@,
        LValueV::Field(o, f, _) => expr_src(o) + "."@ + f,
    }
}

pub open spec fn binding_src(b: VarBindingV) -> Seq<char> {
    match b {
        VarBindingV::Named(n, t) => n + ":"@ + type_src(t),
        VarBindingV::Discard => "_"@,
    }
}

/// The bindings separated by `, `.
pub open spec fn bindings_src(s: Seq<VarBindingV>) -> Seq<char>
    decreases s.len(),
{
    if s.len() == 0 {
        Seq::empty()
    } else if s.len() == 1 {
        binding_src(s[0])
    } else {
        bindings_src(s.drop_last()) + ", "@ + binding_src(s.last())
    }
}

/// The source text of a statement.
pub open spec fn stmt_src(s: StmtV) -> Seq<char>
    decreases s,
{
    match s {
        StmtV::VarDecl(bs, init, _) => "var "@ + bindings_src(bs) + " = "@ + expr_src(init) + ";"@,
        StmtV::Assign(lv, v, _) => lvalue_src(lv) + " = "@ + expr_src(v) + ";"@,
        StmtV::Return(vs, _) => if vs.len() == 0 {
            "return;"@
        } else {
            "return "@ + list_src(vs) + ";"@
        },
        StmtV::Expr(e, _) => expr_src(e) + ";"@,
        StmtV::If(c, t, e, _) => "if "@ + expr_src(c) + " then "@ + stmt_src(*t) + match e {
            Some(x) => " else "@ + stmt_src(*x),
            None => Seq::empty(),
        },
        StmtV::For(n, ty, st, en, lv, step, body, _) => "for var "@ + n + ":"@ + type_src(ty) + " = "@ + expr_src(st)
            + ", "@ + expr_src(en) + ", "@ + lvalue_src(lv) + " = "@ + expr_src(step) + " in "@ + stmt_src(*body),
        StmtV::Block(ss, _) => "{\n"@ + lines_src(ss) + "\n}"@,
    }
}

/// The statements, one per line.
pub open spec fn lines_src(ss: Seq<StmtV>) -> Seq<char>
    decreases ss,
{
    if ss.len() == 0 {
        Seq::empty()
    } else if ss.len() == 1 {
        stmt_src(ss[0])
    } else {
        lines_src(ss.drop_last()) + "\n"@ + stmt_src(ss.last())
    }
}

fn write_type_src(t: &Type, out: &mut String)
    ensures
        final(out)@ == old(out)@ + type_src(t@),
{
    match t {
        Type::Base(b) => crate::ast::write_base(b, out),
        Type::Array(b) => {
            push_str(out, "[");
            crate::ast::write_base(b, out);
            push_str(out, "]");
        },
    }
}

/// The source text of a type: `i32`, `[i32]`, `Point`.
pub fn type_to_str(ty: &Type) -> (r: String)
    ensures
        r@ == type_src(ty@),
{
    let mut s = String::new();
    write_type_src(ty, &mut s);
    s
}

/// The source text of a return type: a type, or `(a, b)`.
pub fn return_type_to_str(rt: &ReturnType) -> (r: String)
    ensures
        r@ == ret_src(rt@),
{
    match rt {
        ReturnType::Single(t) => type_to_str(t),
        ReturnType::Pair(a, b) => {
            let mut s = string_of("(");
            write_type_src(a, &mut s);
            push_str(&mut s, ", ");
            write_type_src(b, &mut s);
            push_str(&mut s, ")");
            s
        },
    }
}

/// The text of a binary operator.
pub fn bin_op_str(op: &crate::ast::BinOp) -> (r: &'static str)
    ensures
        r@ == binop_text(*op),
{
    crate::ast::binop_str(*op)
}

/// The text of a unary operator.
pub fn unary_op_str(op: &crate::ast::UnaryOp) -> (r: &'static str)
    ensures
        r@ == unop_text(*op),
{
    crate::ast::unop_str(*op)
}

fn write_expr_src(e: &Expr, out: &mut String)
    ensures
        final(out)@ == old(out)@ + expr_src(e@),
    decreases e, 1nat,
{
    match e {
        Expr::IntLit(v, _) => push_str(out, v.as_str()),
        Expr::FloatLit(v, _) => push_str(out, v.as_str()),
        Expr::BoolLit(b, _) => if *b {
            push_str(out, "true");
        } else {
            push_str(out, "false");
        },
        Expr::StrLit(v, _) => {
            push_str(out, "\"");
            push_str(out, v.as_str());
            push_str(out, "\"");
        },
        Expr::Ident(n, _) => push_str(out, n.as_str()),
        Expr::Binary { left, op, right, .. } => {
            write_expr_src(&**left, out);
            push_str(out, " ");
            push_str(out, crate::ast::binop_str(*op));
            push_str(out, " ");
            write_expr_src(&**right, out);
        },
        Expr::Unary { op, expr, .. } => {
            push_str(out, crate::ast::unop_str(*op));
            write_expr_src(&**expr, out);
        },
        Expr::Call { func, args, .. } => {
            write_expr_src(&**func, out);
            push_str(out, "(");
            write_list_src(args, out);
            push_str(out, ")");
        },
        Expr::Index { array, index, .. } => {
            write_expr_src(&**array, out);
            push_str(out, "[");
            write_expr_src(&**index, out);
            push_str(out, "]");
        },
        Expr::FieldAccess { obj, field, .. } => {
            write_expr_src(&**obj, out);
            push_str(out, ".");
            push_str(out, field.as_str());
        },
        Expr::StructLit { name, fields, .. } => {
            push_str(out, name.as_str());
            push_str(out, " { ");
            write_inits_src(fields, out);
            push_str(out, " }");
        },
        Expr::ArrayLit(v, _) => {
            push_str(out, "[");
            write_list_src(v, out);
            push_str(out, "]");
        },
    }
}

fn write_list_src(v: &Vec<Expr>, out: &mut String)
    ensures
        final(out)@ == old(out)@ + list_src(evs(v@)),
    decreases v, 0nat,
{
    if v.len() == 0 {
        assert(v@ =~= Seq::<Expr>::empty());
        return;
    }
    proof {
        assert(decreases_to!(v => v@[0]));
        lemma_evs_take(v@, 0);
        assert(v@.take(0) =~= Seq::<Expr>::empty());
    }
    write_expr_src(&v[0], out);
    let mut i: usize = 1;
    while i < v.len()
        invariant
            1 <= i <= v@.len(),
            out@ == old(out)@ + list_src(evs(v@.take(i as int))),
        decreases v@.len() - i,
    {
        proof {
            assert(decreases_to!(v => v@[i as int]));
            lemma_evs_take(v@, i as int);
            let x = evs(v@.take(i as int));
            lemma_evs(v@.take(i as int));
            assert(x.push(ev(&v@[i as int])).drop_last() =~= x);
        }
        push_str(out, ", ");
        write_expr_src(&v[i], out);
        i += 1;
    }
    assert(v@.take(v@.len() as int) =~= v@);
}

fn write_inits_src(v: &Vec<(String, Expr)>, out: &mut String)
    ensures
        final(out)@ == old(out)@ + inits_src(evf(v@)),
    decreases v, 0nat,
{
    if v.len() == 0 {
        assert(v@ =~= Seq::<(String, Expr)>::empty());
        return;
    }
    proof {
        assert(decreases_to!(v => v@[0]));
        assert(decreases_to!(v@[0] => v@[0].1));
        lemma_evf_take(v@, 0);
        assert(v@.take(0) =~= Seq::<(String, Expr)>::empty());
    }
    push_str(out, v[0].0.as_str());
    push_str(out, ":");
    write_expr_src(&v[0].1, out);
    let mut i: usize = 1;
    while i < v.len()
        invariant
            1 <= i <= v@.len(),
            out@ == old(out)@ + inits_src(evf(v@.take(i as int))),
        decreases v@.len() - i,
    {
        proof {
            assert(decreases_to!(v => v@[i as int]));
            assert(decreases_to!(v@[i as int] => v@[i as int].1));
            lemma_evf_take(v@, i as int);
            let x = evf(v@.take(i as int));
            lemma_evf(v@.take(i as int));
            assert(x.push((v@[i as int].0@, ev(&v@[i as int].1))).drop_last() =~= x);
        }
        push_str(out, ", ");
        push_str(out, v[i].0.as_str());
        push_str(out, ":");
        write_expr_src(&v[i].1, out);
        i += 1;
    }
    assert(v@.take(v@.len() as int) =~= v@);
}

/// The source text of an expression.
pub fn expr_to_source(e: &Expr) -> (r: String)
    ensures
        r@ == expr_src(e@),
{
    let mut s = String::new();
    write_expr_src(e, &mut s);
    s
}

fn write_lvalue_src(l: &LValue, out: &mut String)
    ensures
        final(out)@ == old(out)@ + lvalue_src(l@),
{
    match l {
        LValue::Ident(n, _) => push_str(out, n.as_str()),
        LValue::Index { array, index, .. } => {
            write_expr_src(&**array, out);
            push_str(out, "[");
            write_expr_src(&**index, out);
            push_str(out, "]");
        },
        LValue::FieldAccess { obj, field, .. } => {
            write_expr_src(&**obj, out);
            push_str(out, ".");
            push_str(out, field.as_str());
        },
    }
}

/// The source text of a left value.
pub fn lvalue_to_source(lv: &LValue) -> (r: String)
    ensures
        r@ == lvalue_src(lv@),
{
    let mut s = String::new();
    write_lvalue_src(lv, &mut s);
    s
}

fn write_binding_src(b: &VarBinding, out: &mut String)
    ensures
        final(out)@ == old(out)@ + binding_src(vb_v(*b)),
{
    match b {
        VarBinding::Named { name, ty } => {
            push_str(out, name.as_str());
            push_str(out, ":");
            write_type_src(ty, out);
        },
        VarBinding::Discard => push_str(out, "_"),
    }
}

fn write_bindings_src(v: &Vec<VarBinding>, out: &mut String)
    ensures
        final(out)@ == old(out)@ + bindings_src(vbs(v@)),
{
    if v.len() == 0 {
        assert(vbs(v@) =~= Seq::<VarBindingV>::empty());
        return;
    }
    write_binding_src(&v[0], out);
    let mut i: usize = 1;
    assert(vbs(v@.take(1)) =~= seq![vb_v(v@[0])]);
    while i < v.len()
        invariant
            1 <= i <= v@.len(),
            out@ == old(out)@ + bindings_src(vbs(v@.take(i as int))),
        decreases v@.len() - i,
    {
        proof {
            let x = vbs(v@.take(i as int));
            assert(vbs(v@.take(i + 1)) =~= x.push(vb_v(v@[i as int])));
            assert(x.push(vb_v(v@[i as int])).drop_last() =~= x);
        }
        push_str(out, ", ");
        write_binding_src(&v[i], out);
        i += 1;
    }
    assert(v@.take(v@.len() as int) =~= v@);
}

fn write_stmt_src(s: &Stmt, out: &mut String)
    ensures
        final(out)@ == old(out)@ + stmt_src(s@),
    decreases s, 1nat,
{
    match s {
        Stmt::VarDecl { bindings, init, .. } => {
            push_str(out, "var ");
            write_bindings_src(bindings, out);
            push_str(out, " = ");
            write_expr_src(&**init, out);
            push_str(out, ";");
        },
        Stmt::Assign { lvalue, value, .. } => {
            write_lvalue_src(lvalue, out);
            push_str(out, " = ");
            write_expr_src(&**value, out);
            push_str(out, ";");
        },
        Stmt::Return { values, .. } => {
            if values.len() == 0 {
                push_str(out, "return;");
            } else {
                push_str(out, "return ");
                write_list_src(values, out);
                push_str(out, ";");
            }
        },
        Stmt::Expr(e, _) => {
            write_expr_src(&**e, out);
            push_str(out, ";");
        },
        Stmt::If { condition, then_branch, else_branch, .. } => {
            push_str(out, "if ");
            write_expr_src(&**condition, out);
            push_str(out, " then ");
            write_stmt_src(&**then_branch, out);
            match else_branch {
                Some(x) => {
                    push_str(out, " else ");
                    write_stmt_src(&**x, out);
                },
                None => {},
            }
        },
        Stmt::For { var_name, var_type, start, end, step_lvalue, step_expr, body, .. } => {
            push_str(out, "for var ");
            push_str(out, var_name.as_str());
            push_str(out, ":");
            write_type_src(var_type, out);
            push_str(out, " = ");
            write_expr_src(&**start, out);
            push_str(out, ", ");
            write_expr_src(&**end, out);
            push_str(out, ", ");
            write_lvalue_src(step_lvalue, out);
            push_str(out, " = ");
            write_expr_src(&**step_expr, out);
            push_str(out, " in ");
            write_stmt_src(&**body, out);
        },
        Stmt::Block(v, _) => {
            push_str(out, "{\n");
            write_lines_src(v, out);
            push_str(out, "\n}");
        },
    }
}

fn write_lines_src(v: &Vec<Stmt>, out: &mut String)
    ensures
        final(out)@ == old(out)@ + lines_src(svs(v@)),
    decreases v, 0nat,
{
    if v.len() == 0 {
        assert(v@ =~= Seq::<Stmt>::empty());
        return;
    }
    proof {
        assert(decreases_to!(v => v@[0]));
        lemma_svs_take(v@, 0);
        assert(v@.take(0) =~= Seq::<Stmt>::empty());
    }
    write_stmt_src(&v[0], out);
    let mut i: usize = 1;
    while i < v.len()
        invariant
            1 <= i <= v@.len(),
            out@ == old(out)@ + lines_src(svs(v@.take(i as int))),
        decreases v@.len() - i,
    {
        proof {
            assert(decreases_to!(v => v@[i as int]));
            lemma_svs_take(v@, i as int);
            let x = svs(v@.take(i as int));
            lemma_svs(v@.take(i as int));
            assert(x.push(v@[i as int]@).drop_last() =~= x);
        }
        push_str(out, "\n");
        write_stmt_src(&v[i], out);
        i += 1;
    }
    assert(v@.take(v@.len() as int) =~= v@);
}

/// The source text of a statement.
pub fn stmt_to_source(s: &Stmt) -> (r: String)
    ensures
        r@ == stmt_src(s@),
{
    let mut out = String::new();
    write_stmt_src(s, &mut out);
    out
}

/// The source text of statements, one per line.
pub fn stmts_to_source(stmts: &Vec<Stmt>) -> (r: String)
    ensures
        r@ == lines_src(svs(stmts@)),
{
    let mut out = String::new();
    write_lines_src(stmts, &mut out);
    out
}

// ── Programs built from input lines ─────────────────────────────────────

/// A call of a builtin that returns nothing (its value is not printed).
pub open spec fn is_void_call(e: ExprV) -> bool {
    match e {
        ExprV::Call(f, _, _) => match *f {
            ExprV::Ident(n, _) => n == "puts"@ || n == "print"@ || n == "eprint"@ || n == "write_file"@
                || n == "append_file"@ || n == "push"@,
            _ => false,
        },
        _ => false,
    }
}

/// Whether the expression calls a builtin that returns nothing.
pub fn is_void_builtin_call(expr: &Expr) -> (r: bool)
    ensures
        r == is_void_call(expr@),
{
    match expr {
        Expr::Call { func, .. } => match &**func {
            Expr::Ident(name, span) => {
                assert(func@ == ExprV::Ident(name@, crate::ast::span_v(*span)));
                let n = name.as_str();
                text_eq(n, "puts") || text_eq(n, "print") || text_eq(n, "eprint") || text_eq(n, "write_file")
                    || text_eq(n, "append_file") || text_eq(n, "push")
            },
            _ => false,
        },
        _ => false,
    }
}

/// The program a line runs as: the definitions so far, then a `main` that
/// prints the value of the expression `body` (when `is_expr`) or runs the
/// statement `body`.
pub open spec fn program_src(defs: Seq<char>, body: Seq<char>, is_expr: bool) -> Seq<char> {
    if is_expr {
        defs + "def main() -> i32 {\n  puts(str("@ + body + "));\n  return 0;\n}\n"@
    } else {
        defs + "def main() -> i32 {\n"@ + body + "\n  return 0;\n}\n"@
    }
}

/// Builds the program a line runs as (see `program_src`).
pub fn build_program_source(defs: &str, body: &str, is_expr: bool) -> (r: String)
    ensures
        r@ == program_src(defs@, body@, is_expr),
{
    let mut s = string_of(defs);
    if is_expr {
        push_str(&mut s, "def main() -> i32 {\n  puts(str(");
        push_str(&mut s, body);
        push_str(&mut s, "));\n  return 0;\n}\n");
    } else {
        push_str(&mut s, "def main() -> i32 {\n");
        push_str(&mut s, body);
        push_str(&mut s, "\n  return 0;\n}\n");
    }
    s
}

/// The parameters as `name:type`, separated by `, `.
pub open spec fn params_src(ps: Seq<(Seq<char>, TypeV)>) -> Seq<char>
    decreases ps.len(),
{
    if ps.len() == 0 {
        Seq::empty()
    } else if ps.len() == 1 {
        ps[0].0 + ":"@ + type_src(ps[0].1)
    } else {
        params_src(ps.drop_last()) + ", "@ + ps.last().0 + ":"@ + type_src(ps.last().1)
    }
}

/// The fields as `name:type;`, one per line.
pub open spec fn fields_src(fs: Seq<(Seq<char>, TypeV)>) -> Seq<char>
    decreases fs.len(),
{
    if fs.len() == 0 {
        Seq::empty()
    } else if fs.len() == 1 {
        fs[0].0 + ":"@ + type_src(fs[0].1) + ";"@
    } else {
        fields_src(fs.drop_last()) + "\n"@ + fs.last().0 + ":"@ + type_src(fs.last().1) + ";"@
    }
}

/// The source text a function definition is kept as.
pub open spec fn func_src(f: crate::ast::FuncDefV) -> Seq<char> {
    "def "@ + f.name + "("@ + params_src(f.params) + ") -> "@ + ret_src(f.ret) + " {\n"@ + lines_src(f.body) + "\n}\n"@
}

/// The source text a struct definition is kept as.
pub open spec fn struct_src(s: crate::ast::StructDefV) -> Seq<char> {
    "struct "@ + s.name + " {\n"@ + fields_src(s.fields) + "\n}\n"@
}

/// Writes the `name:type` pairs: as fields (one per line, each ending in
/// `;`) or as parameters (separated by `, `).
fn write_typed_names(v: &Vec<(String, Type)>, as_fields: bool, out: &mut String)
    ensures
        !as_fields ==> final(out)@ == old(out)@ + params_src(typed_names(v@)),
        as_fields ==> final(out)@ == old(out)@ + fields_src(typed_names(v@)),
{
    let ghost ps = typed_names(v@);
    if v.len() == 0 {
        assert(ps =~= Seq::<(Seq<char>, TypeV)>::empty());
        return;
    }
    push_str(out, v[0].0.as_str());
    push_str(out, ":");
    write_type_src(&v[0].1, out);
    if as_fields {
        push_str(out, ";");
    }
    let mut i: usize = 1;
    proof {
        assert(ps.take(1).len() == 1);
        assert(ps.take(1)[0] == ps[0]);
    }
    while i < v.len()
        invariant
            1 <= i <= v@.len(),
            ps == typed_names(v@),
            !as_fields ==> out@ == old(out)@ + params_src(ps.take(i as int)),
            as_fields ==> out@ == old(out)@ + fields_src(ps.take(i as int)),
        decreases v@.len() - i,
    {
        proof {
            assert(ps.take(i + 1).drop_last() =~= ps.take(i as int));
            assert(ps.take(i + 1).last() == ps[i as int]);
        }
        if as_fields {
            push_str(out, "\n");
        } else {
            push_str(out, ", ");
        }
        push_str(out, v[i].0.as_str());
        push_str(out, ":");
        write_type_src(&v[i].1, out);
        if as_fields {
            push_str(out, ";");
        }
        i += 1;
    }
    assert(ps.take(v@.len() as int) =~= ps);
}

/// The source text a function definition is kept as (see `func_src`).
pub fn func_def_source(f: &FuncDef) -> (r: String)
    ensures
        r@ == func_src(f@),
{
    let mut s = string_of("def ");
    push_str(&mut s, f.name.as_str());
    push_str(&mut s, "(");
    write_typed_names(&f.params, false, &mut s);
    push_str(&mut s, ") -> ");
    let rt = return_type_to_str(&f.return_type);
    push_str(&mut s, rt.as_str());
    push_str(&mut s, " {\n");
    let body = stmts_to_source(&f.body);
    push_str(&mut s, body.as_str());
    push_str(&mut s, "\n}\n");
    s
}

/// The source text a struct definition is kept as (see `struct_src`).
pub fn struct_def_source(sd: &StructDef) -> (r: String)
    ensures
        r@ == struct_src(sd@),
{
    let mut s = string_of("struct ");
    push_str(&mut s, sd.name.as_str());
    push_str(&mut s, " {\n");
    write_typed_names(&sd.fields, true, &mut s);
    push_str(&mut s, "\n}\n");
    s
}

/// What parsing the tokens `ts` of a line gives.
pub open spec fn line_parsed(ts: Seq<Token>, r: Result<LineResult, ParseError>) -> bool {
    &&& ts.len() > DEFAULT_MAX_TOKENS ==> (r matches Err(e) && unplaced(
        e,
        too_long_msg(ts.len(), DEFAULT_MAX_TOKENS as nat),
        false,
    ))
    &&& ts.len() <= 1 ==> (r matches Err(e) && unplaced(e, "空输入"@, true))
    &&& 1 < ts.len() <= DEFAULT_MAX_TOKENS ==> match p_line(ts) {
        PR::Read(x, _) => r matches Ok(l) && l@ == x,
        PR::Fail(at, msg, inc) => r matches Err(e) && err_matches(ts, e, at, msg, inc),
    }
}

/// What lexing and parsing a line of input gives: a lexical error becomes
/// a syntax error that does not ask for more input.
#[verifier::opaque]
pub open spec fn line_result(cs: Seq<char>, r: Result<LineResult, ParseError>) -> bool {
    match lex_from(cs, 0) {
        LexOutcome::Failed(a, b) => r matches Err(e) && e.msg@ == lex_error_msg(cs.subrange(a as int, b as int))
            && e.line == line_of(cs, a) && e.col == col_of(cs, a) && e.span.start == boff(cs, a)
            && e.span.end == boff(cs, b) && !e.is_incomplete,
        LexOutcome::Tokens(toks, _) => exists|ts: Seq<Token>| stream_matches(cs, ts, toks) && line_parsed(ts, r),
    }
}

/// Lexes and parses one line of input (see `line_result`).
pub fn try_parse(source: &str) -> (r: Result<LineResult, ParseError>)
    requires
        source.spec_bytes().len() < usize::MAX,
    ensures
        line_result(source@, r),
{
    reveal(line_result);
    let mut ls = LexStats::default();
    let tokens = match crate::lexer::tokenize(source, &mut ls) {
        Ok(t) => t,
        Err(e) => {
            return Err(ParseError { msg: e.msg, line: e.line, col: e.col, span: e.span, is_incomplete: false });
        },
    };
    proof {
        match lex_from(source@, 0) {
            LexOutcome::Tokens(toks, _) => {
                crate::parser::lemma_stream_wf(source@, tokens@, toks);
            },
            _ => {},
        }
    }
    let r = parse_line(tokens.as_slice());
    proof {
        match lex_from(source@, 0) {
            LexOutcome::Tokens(toks, _) => {
                assert(stream_matches(source@, tokens@, toks) && line_parsed(tokens@, r));
            },
            _ => {},
        }
    }
    r
}

// ── Whitespace ──────────────────────────────────────────────────────────

/// The characters with the Unicode `White_Space` property, which
/// `char::is_whitespace` tests for.
pub open spec fn is_ws(c: char) -> bool {
    let u = c as u32;
    (0x9 <= u && u <= 0xd) || u == 0x20 || u == 0x85 || u == 0xa0 || u == 0x1680 || (0x2000 <= u && u <= 0x200a)
        || u == 0x2028 || u == 0x2029 || u == 0x202f || u == 0x205f || u == 0x3000
}

fn is_ws_x(c: char) -> (r: bool)
    ensures
        r == is_ws(c),
{
    let u = c as u32;
    (0x9 <= u && u <= 0xd) || u == 0x20 || u == 0x85 || u == 0xa0 || u == 0x1680 || (0x2000 <= u && u <= 0x200a)
        || u == 0x2028 || u == 0x2029 || u == 0x202f || u == 0x205f || u == 0x3000
}

pub open spec fn trim_start(cs: Seq<char>) -> Seq<char>
    decreases cs.len(),
{
    if cs.len() > 0 && is_ws(cs[0]) {
        trim_start(cs.drop_first())
    } else {
        cs
    }
}

pub open spec fn trim_end(cs: Seq<char>) -> Seq<char>
    decreases cs.len(),
{
    if cs.len() > 0 && is_ws(cs.last()) {
        trim_end(cs.drop_last())
    } else {
        cs
    }
}

/// The text without its leading and trailing whitespace (`str::trim`).
pub open spec fn trimmed(cs: Seq<char>) -> Seq<char> {
    trim_end(trim_start(cs))
}

/// The characters before the first whitespace.
pub open spec fn first_word(cs: Seq<char>) -> Seq<char>
    decreases cs.len(),
{
    if cs.len() == 0 || is_ws(cs[0]) {
        Seq::empty()
    } else {
        seq![cs[0]] + first_word(cs.drop_first())
    }
}

/// The UTF-8 form of a concatenation is the concatenation of the forms.
pub proof fn lemma_encode_concat(a: Seq<char>, b: Seq<char>)
    ensures
        vstd::utf8::encode_utf8(a + b) == vstd::utf8::encode_utf8(a) + vstd::utf8::encode_utf8(b),
    decreases a.len(),
{
    if a.len() > 0 {
        assert((a + b).drop_first() =~= a.drop_first() + b);
        assert((a + b)[0] == a[0]);
        lemma_encode_concat(a.drop_first(), b);
        assert(vstd::utf8::encode_utf8(a + b) =~= vstd::utf8::encode_utf8(a) + vstd::utf8::encode_utf8(b));
    } else {
        assert(a + b =~= b);
        assert(vstd::utf8::encode_utf8(a) =~= Seq::<u8>::empty());
        assert(vstd::utf8::encode_utf8(a) + vstd::utf8::encode_utf8(b) =~= vstd::utf8::encode_utf8(b));
    }
}

/// A run of a text takes no more UTF-8 bytes than the text.
pub proof fn lemma_encode_sub(cs: Seq<char>, i: int, j: int)
    requires
        0 <= i <= j <= cs.len(),
    ensures
        vstd::utf8::encode_utf8(cs.subrange(i, j)).len() <= vstd::utf8::encode_utf8(cs).len(),
{
    let a = cs.subrange(0, i);
    let t = cs.subrange(i, j);
    let c = cs.subrange(j, cs.len() as int);
    assert(cs =~= a + t + c);
    lemma_encode_concat(a + t, c);
    lemma_encode_concat(a, t);
}

/// The text without its leading and trailing whitespace (see `trimmed`).
pub fn trim_text(s: &str) -> (r: String)
    ensures
        r@ == trimmed(s@),
        vstd::utf8::encode_utf8(r@).len() <= vstd::utf8::encode_utf8(s@).len(),
{
    let cs = crate::text::chars_of(s);
    let n = cs.len();
    let mut i: usize = 0;
    assert(s@.subrange(0, n as int) =~= s@);
    while i < n && is_ws_x(cs[i])
        invariant
            cs@ == s@,
            n == cs@.len(),
            i <= n,
            trim_start(s@) == trim_start(s@.subrange(i as int, n as int)),
        decreases n - i,
    {
        assert(s@.subrange(i as int, n as int).drop_first() =~= s@.subrange(i + 1, n as int));
        i += 1;
    }
    assert(trim_start(s@.subrange(i as int, n as int)) == s@.subrange(i as int, n as int));
    let mut j: usize = n;
    while j > i && is_ws_x(cs[j - 1])
        invariant
            cs@ == s@,
            n == cs@.len(),
            i <= j <= n,
            trim_end(s@.subrange(i as int, n as int)) == trim_end(s@.subrange(i as int, j as int)),
        decreases j - i,
    {
        assert(s@.subrange(i as int, j as int).drop_last() =~= s@.subrange(i as int, j - 1));
        j -= 1;
    }
    assert(trim_end(s@.subrange(i as int, j as int)) == s@.subrange(i as int, j as int));
    proof {
        lemma_encode_sub(s@, i as int, j as int);
    }
    crate::text::string_from_chars(&cs, i, j)
}

fn first_word_x(s: &String) -> (r: String)
    ensures
        r@ == first_word(s@),
{
    let cs = crate::text::chars_of(s.as_str());
    let n = cs.len();
    let mut k: usize = 0;
    assert(s@.subrange(0, n as int) =~= s@);
    assert(s@.subrange(0, 0) + first_word(s@) =~= first_word(s@));
    while k < n && !is_ws_x(cs[k])
        invariant
            cs@ == s@,
            n == cs@.len(),
            k <= n,
            first_word(s@) == s@.subrange(0, k as int) + first_word(s@.subrange(k as int, n as int)),
        decreases n - k,
    {
        let ghost rest = s@.subrange(k as int, n as int);
        assert(rest.drop_first() =~= s@.subrange(k + 1, n as int));
        assert(s@.subrange(0, k + 1) =~= s@.subrange(0, k as int) + seq![cs@[k as int]]);
        k += 1;
    }
    assert(first_word(s@.subrange(k as int, n as int)) =~= Seq::<char>::empty());
    assert(first_word(s@) =~= s@.subrange(0, k as int));
    crate::text::string_from_chars(&cs, 0, k)
}

// ── The interactive session ─────────────────────────────────────────────

/// A command of the interactive loop, written with a leading `.`.
pub enum MetaCommand {
    Quit,
    Help,
    Defs,
    Clear,
    Stats,
    /// A word that names no command.
    Unknown(String),
}

pub enum MetaV {
    Quit,
    Help,
    Defs,
    Clear,
    Stats,
    Unknown(Seq<char>),
}

impl View for MetaCommand {
    type V = MetaV;

    open spec fn view(&self) -> MetaV {
        match self {
            MetaCommand::Quit => MetaV::Quit,
            MetaCommand::Help => MetaV::Help,
            MetaCommand::Defs => MetaV::Defs,
            MetaCommand::Clear => MetaV::Clear,
            MetaCommand::Stats => MetaV::Stats,
            MetaCommand::Unknown(w) => MetaV::Unknown(w@),
        }
    }
}

/// The command a word names.
pub open spec fn meta_of(w: Seq<char>) -> MetaV {
    if w == ".quit"@ || w == ".exit"@ {
        MetaV::Quit
    } else if w == ".help"@ {
        MetaV::Help
    } else if w == ".defs"@ {
        MetaV::Defs
    } else if w == ".clear"@ {
        MetaV::Clear
    } else if w == ".stats"@ {
        MetaV::Stats
    } else {
        MetaV::Unknown(w)
    }
}

fn meta_of_x(w: String) -> (r: MetaCommand)
    ensures
        r@ == meta_of(w@),
{
    let s = w.as_str();
    if text_eq(s, ".quit") || text_eq(s, ".exit") {
        MetaCommand::Quit
    } else if text_eq(s, ".help") {
        MetaCommand::Help
    } else if text_eq(s, ".defs") {
        MetaCommand::Defs
    } else if text_eq(s, ".clear") {
        MetaCommand::Clear
    } else if text_eq(s, ".stats") {
        MetaCommand::Stats
    } else {
        MetaCommand::Unknown(w)
    }
}

/// What the program around the library does after a line of input.
pub enum ReplAction {
    /// Nothing: a blank line, or more input is needed.
    Wait,
    /// Carry out a command.
    Meta(MetaCommand),
    /// A definition was kept; show this note.
    Defined(String),
    /// Compile and run `program`; errors refer to `input`.
    Run { program: String, input: String },
    /// Read the module at `path` and add its text to the definitions.
    Import { path: String, alias: String },
    /// Report the syntax error over `input`.
    Failed { error: ParseError, input: String },
}

/// The interactive loop's state: the definitions so far (as source text),
/// the input lines of an unfinished entry, the number of lines taken and
/// whether an entry is being continued.
pub struct ReplSession {
    pub defs_source: String,
    pub line_buffer: String,
    pub line_no: usize,
    pub continuing: bool,
}

pub struct SessionV {
    pub defs: Seq<char>,
    pub buffer: Seq<char>,
    pub line_no: usize,
    pub continuing: bool,
}

impl View for ReplSession {
    type V = SessionV;

    open spec fn view(&self) -> SessionV {
        SessionV {
            defs: self.defs_source@,
            buffer: self.line_buffer@,
            line_no: self.line_no,
            continuing: self.continuing,
        }
    }
}

/// The state and action after the entry in `st` parsed as `pr`.
#[verifier::opaque]
pub open spec fn after_entry(st: SessionV, pr: Result<LineResult, ParseError>, fin: SessionV, r: ReplAction) -> bool {
    match pr {
        Ok(l) => {
            &&& fin.buffer.len() == 0
            &&& !fin.continuing
            &&& fin.line_no == st.line_no
            &&& match l@ {
                crate::parser::LineV::FuncDef(f) => r matches ReplAction::Defined(m) && m@ == "<function "@ + f.name + ">"@
                    && fin.defs == st.defs + func_src(f),
                crate::parser::LineV::StructDef(s) => r matches ReplAction::Defined(m) && m@ == "<struct "@ + s.name + ">"@
                    && fin.defs == st.defs + struct_src(s),
                crate::parser::LineV::Stmt(s) => r matches ReplAction::Run { program, input }
                    && program@ == program_src(st.defs, stmt_src(s), false) && input@ == st.buffer && fin.defs == st.defs,
                crate::parser::LineV::Import(i) => r matches ReplAction::Import { path, alias }
                    && path@ == i.path && alias@ == i.alias && fin.defs == st.defs,
                crate::parser::LineV::Expr(e) => r matches ReplAction::Run { program, input }
                    && program@ == program_src(st.defs, expr_src(e), !is_void_call(e)) && input@ == st.buffer
                    && fin.defs == st.defs,
            }
        },
        Err(e) => if e.is_incomplete {
            fin == SessionV { continuing: true, ..st } && r is Wait
        } else {
            r matches ReplAction::Failed { error, input } && error == e && input@ == st.buffer
                && fin == (SessionV { buffer: Seq::empty(), continuing: false, ..st })
        },
    }
}

/// Some parse of the entry `buf` leads from `st` to `fin` and the action `r`.
pub open spec fn entry_outcome(buf: Seq<char>, st: SessionV, fin: SessionV, r: ReplAction) -> bool {
    exists|pr: Result<LineResult, ParseError>| line_result(buf, pr) && after_entry(st, pr, fin, r)
}

impl ReplSession {
    /// A session with no definitions and no pending input.
    pub fn new() -> (s: ReplSession)
        ensures
            s@.defs.len() == 0,
            s@.buffer.len() == 0,
            s@.line_no == 0,
            !s@.continuing,
    {
        ReplSession { defs_source: String::new(), line_buffer: String::new(), line_no: 0, continuing: false }
    }

    /// Adds the text of an imported module to the definitions.
    pub fn add_definitions(&mut self, text: &str)
        ensures
            final(self)@ == (SessionV { defs: old(self)@.defs + text@ + seq!['\n'], ..old(self)@ }),
    {
        push_str(&mut self.defs_source, text);
        crate::text::push_char(&mut self.defs_source, '\n');
        assert(self.defs_source@ =~= old(self)@.defs + text@ + seq!['\n']);
    }

    /// Takes one line of input: a blank line, a command, or the next line of
    /// an entry; a complete entry is parsed and turned into an action, an
    /// incomplete one waits for more lines.
    pub fn handle_line(&mut self, line: &str) -> (r: ReplAction)
        requires
            vstd::utf8::encode_utf8(old(self)@.buffer).len() + vstd::utf8::encode_utf8(line@).len() + 1 < usize::MAX,
        ensures
            ({
                let st = old(self)@;
                let t = trimmed(line@);
                if t.len() == 0 {
                    final(self)@ == (SessionV {
                        buffer: if st.continuing { st.buffer.push('\n') } else { st.buffer },
                        ..st
                    }) && r is Wait
                } else if t[0] == '.' {
                    let m = meta_of(first_word(t));
                    let st1 = if m is Clear {
                        SessionV { defs: Seq::empty(), buffer: Seq::empty(), continuing: false, ..st }
                    } else {
                        st
                    };
                    r matches ReplAction::Meta(c) && c@ == m && final(self)@ == (if st1.continuing {
                        SessionV { continuing: false, buffer: Seq::empty(), ..st1 }
                    } else {
                        st1
                    })
                } else {
                    let buf = if st.buffer.len() == 0 { t } else { st.buffer.push('\n') + t };
                    let st1 = SessionV {
                        buffer: buf,
                        line_no: if st.line_no < usize::MAX { (st.line_no + 1) as usize } else { st.line_no },
                        ..st
                    };
                    entry_outcome(buf, st1, final(self)@, r)
                }
            }),
    {
        let t = trim_text(line);
        let tc = crate::text::chars_of(t.as_str());
        if tc.len() == 0 {
            if self.continuing {
                crate::text::push_char(&mut self.line_buffer, '\n');
            }
            return ReplAction::Wait;
        }
        if tc[0] == '.' {
            return self.meta_line(t);
        }
        self.entry_line(t)
    }

    /// A command line: the command its first word names; `.clear` forgets
    /// the definitions, and any unfinished entry is dropped.
    fn meta_line(&mut self, t: String) -> (r: ReplAction)
        ensures
            ({
                let st = old(self)@;
                let m = meta_of(first_word(t@));
                let st1 = if m is Clear {
                    SessionV { defs: Seq::empty(), buffer: Seq::empty(), continuing: false, ..st }
                } else {
                    st
                };
                r matches ReplAction::Meta(c) && c@ == m && final(self)@ == (if st1.continuing {
                    SessionV { continuing: false, buffer: Seq::empty(), ..st1 }
                } else {
                    st1
                })
            }),
    {
        let w = first_word_x(&t);
        let m = meta_of_x(w);
        if let MetaCommand::Clear = m {
            self.defs_source = String::new();
            self.line_buffer = String::new();
            self.continuing = false;
        }
        if self.continuing {
            self.continuing = false;
            self.line_buffer = String::new();
        }
        ReplAction::Meta(m)
    }

    /// The next line `t` of an entry: it is added to the entry, which is
    /// then parsed.
    fn entry_line(&mut self, t: String) -> (r: ReplAction)
        requires
            vstd::utf8::encode_utf8(old(self)@.buffer).len() + vstd::utf8::encode_utf8(t@).len() + 1 < usize::MAX,
        ensures
            ({
                let st = old(self)@;
                let buf = if st.buffer.len() == 0 { t@ } else { st.buffer.push('\n') + t@ };
                let st1 = SessionV {
                    buffer: buf,
                    line_no: if st.line_no < usize::MAX { (st.line_no + 1) as usize } else { st.line_no },
                    ..st
                };
                entry_outcome(buf, st1, final(self)@, r)
            }),
    {
        self.line_no = if self.line_no < usize::MAX { self.line_no + 1 } else { self.line_no };
        let ghost before = self.line_buffer@;
        let ghost tv = t@;
        let empty = crate::text::chars_of(self.line_buffer.as_str()).len() == 0;
        if empty {
            self.line_buffer = t;
        } else {
            crate::text::push_char(&mut self.line_buffer, '\n');
            push_str(&mut self.line_buffer, t.as_str());
            proof {
                lemma_encode_concat(before, seq!['\n']);
                lemma_encode_concat(before.push('\n'), tv);
                assert(before.push('\n') =~= before + seq!['\n']);
                assert(vstd::utf8::encode_utf8(seq!['\n']).len() == 1) by {
                    reveal_with_fuel(vstd::utf8::encode_utf8, 2);
                    assert(seq!['\n'].drop_first() =~= Seq::<char>::empty());
                }
            }
        }
        let ghost st1 = self@;
        let parsed = try_parse(self.line_buffer.as_str());
        let ghost pr = parsed;
        let r = self.enter(parsed);
        proof {
            let st = old(self)@;
            let buf = if st.buffer.len() == 0 { t@ } else { st.buffer.push('\n') + t@ };
            let sx = SessionV {
                buffer: buf,
                line_no: if st.line_no < usize::MAX { (st.line_no + 1) as usize } else { st.line_no },
                ..st
            };
            assert(st1.buffer == buf);
            assert(st1 == sx);
            assert(line_result(buf, pr) && after_entry(sx, pr, self@, r));
            assert(entry_outcome(buf, sx, self@, r));
        }
        r
    }

    /// Turns a parsed entry into an action, keeping a definition.
    fn enter(&mut self, parsed: Result<LineResult, ParseError>) -> (r: ReplAction)
        ensures
            after_entry(old(self)@, parsed, final(self)@, r),
    {
        reveal(after_entry);
        match parsed {
            Ok(l) => {
                let input = self.line_buffer.clone();
                self.line_buffer = String::new();
                self.continuing = false;
                match l {
                    LineResult::FuncDef(f) => {
                        let src = func_def_source(&f);
                        push_str(&mut self.defs_source, src.as_str());
                        let mut m = string_of("<function ");
                        push_str(&mut m, f.name.as_str());
                        push_str(&mut m, ">");
                        ReplAction::Defined(m)
                    },
                    LineResult::StructDef(s) => {
                        let src = struct_def_source(&s);
                        push_str(&mut self.defs_source, src.as_str());
                        let mut m = string_of("<struct ");
                        push_str(&mut m, s.name.as_str());
                        push_str(&mut m, ">");
                        ReplAction::Defined(m)
                    },
                    LineResult::Stmt(s) => {
                        let body = stmt_to_source(&s);
                        let program = build_program_source(self.defs_source.as_str(), body.as_str(), false);
                        ReplAction::Run { program, input }
                    },
                    LineResult::Import(i) => ReplAction::Import { path: i.path, alias: i.alias },
                    LineResult::Expr(e) => {
                        let body = expr_to_source(&e);
                        let is_void = is_void_builtin_call(&e);
                        let program = build_program_source(self.defs_source.as_str(), body.as_str(), !is_void);
                        ReplAction::Run { program, input }
                    },
                }
            },
            Err(e) => {
                if e.is_incomplete {
                    self.continuing = true;
                    ReplAction::Wait
                } else {
                    let input = self.line_buffer.clone();
                    self.line_buffer = String::new();
                    self.continuing = false;
                    ReplAction::Failed { error: e, input }
                }
            },
        }
    }
}

/// Exactly the words `.quit` and `.exit` name the command that ends the
/// session.
pub proof fn law_quit_words(w: Seq<char>)
    ensures
        (meta_of(w) == MetaV::Quit) <==> (w == ".quit"@ || w == ".exit"@),
{
}

/// Each meta command is named by exactly its word: `.help`, `.defs`,
/// `.clear` and `.stats`; any other word is an unknown command carrying it.
pub proof fn law_meta_words(w: Seq<char>)
    ensures
        (meta_of(w) == MetaV::Help) <==> w == ".help"@,
        (meta_of(w) == MetaV::Defs) <==> w == ".defs"@,
        (meta_of(w) == MetaV::Clear) <==> w == ".clear"@,
        (meta_of(w) == MetaV::Stats) <==> w == ".stats"@,
        (meta_of(w) is Unknown) <==> !(w == ".quit"@ || w == ".exit"@ || w == ".help"@ || w == ".defs"@ || w
            == ".clear"@ || w == ".stats"@),
        meta_of(w) matches MetaV::Unknown(x) ==> x == w,
{
    reveal_strlit(".quit");
    reveal_strlit(".exit");
    reveal_strlit(".help");
    reveal_strlit(".defs");
    reveal_strlit(".clear");
    reveal_strlit(".stats");
    assert(".help"@ != ".quit"@ && ".help"@ != ".exit"@) by {
        assert(".help"@[1] != ".quit"@[1] && ".help"@[1] != ".exit"@[1]);
    }
    assert(".defs"@ != ".quit"@ && ".defs"@ != ".exit"@ && ".defs"@ != ".help"@) by {
        assert(".defs"@[1] != ".quit"@[1] && ".defs"@[1] != ".exit"@[1] && ".defs"@[1] != ".help"@[1]);
    }
    assert(".clear"@ != ".quit"@ && ".clear"@ != ".exit"@ && ".clear"@ != ".help"@ && ".clear"@ != ".defs"@);
    assert(".stats"@ != ".quit"@ && ".stats"@ != ".exit"@ && ".stats"@ != ".help"@ && ".stats"@ != ".defs"@
        && ".stats"@ != ".clear"@) by {
        assert(".stats"@[1] != ".clear"@[1]);
    }
}

/// The word of a text made of `w` (no whitespace in it) and then nothing or
/// whitespace first is `w`.
proof fn lemma_first_word_of(w: Seq<char>, rest: Seq<char>)
    requires
        forall|i: int| 0 <= i < w.len() ==> !is_ws(#[trigger] w[i]),
        rest.len() == 0 || is_ws(rest[0]),
    ensures
        first_word(w + rest) == w,
    decreases w.len(),
{
    if w.len() == 0 {
        assert(w + rest =~= rest);
    } else {
        let t = w.drop_first();
        assert((w + rest).drop_first() =~= t + rest);
        lemma_first_word_of(t, rest);
        assert(seq![w[0]] + t =~= w);
    }
}

/// A meta line that is `.quit` or `.exit`, whatever follows after
/// whitespace, is the command that ends the session.
pub proof fn law_quit_lines(rest: Seq<char>)
    requires
        rest.len() == 0 || is_ws(rest[0]),
    ensures
        meta_of(first_word(".quit"@ + rest)) == MetaV::Quit,
        meta_of(first_word(".exit"@ + rest)) == MetaV::Quit,
        (".quit"@ + rest)[0] == '.' && (".exit"@ + rest)[0] == '.',
{
    reveal_strlit(".quit");
    reveal_strlit(".exit");
    lemma_first_word_of(".quit"@, rest);
    lemma_first_word_of(".exit"@, rest);
}

} // verus!
