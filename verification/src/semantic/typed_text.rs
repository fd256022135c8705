//! The text of the typed tree: the S-expressions of the syntax tree with
//! each expression's type written after it (`(int-lit 42 :i32)`).

use vstd::prelude::*;
use crate::ast::{binop_str, binop_text, bool_text, lvalue_sx, struct_def_sx, unop_str, unop_text};
use crate::semantic::types::{
    kt_text, lemma_tevf, lemma_tevs, lemma_tsvs, tev, tevf, tevs, tsv, tsvs, typed_bindings, typed_params,
    KangType, TExprV, TFuncV, TKindV, TStmtV, TTopV, TypedExpr, TypedExprKind, TypedFuncDef, TypedProgram,
    TypedStmt, TypedStmtKind, TypedTopLevel, KT,
};
use crate::text::{debug_quoted, debug_str, push_str};

verus! {

// ── The texts ───────────────────────────────────────────────────────────

/// The text of a typed expression.
pub open spec fn texpr_text(e: TExprV) -> Seq<char>
    decreases e,
{
    match e.kind {
        TKindV::IntLit(v) => "(int-lit "@ + v + " "@ + kt_text(e.ty) + ")"@,
        TKindV::FloatLit(v) => "(float-lit "@ + v + " "@ + kt_text(e.ty) + ")"@,
        TKindV::StrLit(v) => "(str-lit "@ + debug_str(v) + " "@ + kt_text(e.ty) + ")"@,
        TKindV::BoolLit(b) => "(bool-lit "@ + bool_text(b) + " "@ + kt_text(e.ty) + ")"@,
        TKindV::Ident(n) => n + " "@ + kt_text(e.ty),
        TKindV::Binary(l, op, r) => "("@ + binop_text(op) + " "@ + texpr_text(*l) + " "@ + texpr_text(*r)
            + " "@ + kt_text(e.ty) + ")"@,
        TKindV::Unary(op, x) => "("@ + unop_text(op) + " "@ + texpr_text(*x) + " "@ + kt_text(e.ty) + ")"@,
        TKindV::Call(n, args) => "(call "@ + n + " args=("@ + tjoined_text(args) + ") "@ + kt_text(e.ty) + ")"@,
        TKindV::Index(a, i) => "(index "@ + texpr_text(*a) + " "@ + texpr_text(*i) + " "@ + kt_text(e.ty) + ")"@,
        TKindV::Field(o, f) => "(. "@ + texpr_text(*o) + " "@ + f + " "@ + kt_text(e.ty) + ")"@,
        TKindV::ArrayLit(v) => "(array-lit"@ + tspaced_text(v) + " "@ + kt_text(e.ty) + ")"@,
        TKindV::StructLit(n, fs) => "(struct-lit \""@ + n + "\""@ + tfields_text(fs) + " "@ + kt_text(e.ty)
            + ")"@,
    }
}

/// Each typed expression preceded by a blank.
pub open spec fn tspaced_text(s: Seq<TExprV>) -> Seq<char>
    decreases s,
{
    if s.len() == 0 {
        Seq::empty()
    } else {
        tspaced_text(s.drop_last()) + " "@ + texpr_text(s.last())
    }
}

/// The typed expressions separated by blanks.
pub open spec fn tjoined_text(s: Seq<TExprV>) -> Seq<char>
    decreases s,
{
    if s.len() == 0 {
        Seq::empty()
    } else if s.len() == 1 {
        texpr_text(s[0])
    } else {
        tjoined_text(s.drop_last()) + " "@ + texpr_text(s.last())
    }
}

/// Each field initializer as ` (name value)`.
pub open spec fn tfields_text(s: Seq<(Seq<char>, TExprV)>) -> Seq<char>
    decreases s,
{
    if s.len() == 0 {
        Seq::empty()
    } else {
        tfields_text(s.drop_last()) + " ("@ + s.last().0 + " "@ + texpr_text(s.last().1) + ")"@
    }
}

/// One binding of a declaration: `_` for a discard, else the name and type.
pub open spec fn tbinding_text(b: (Seq<char>, KT, bool)) -> Seq<char> {
    if b.2 {
        "_"@
    } else {
        b.0 + " "@ + kt_text(b.1)
    }
}

/// The bindings separated by blanks.
pub open spec fn tbindings_text(s: Seq<(Seq<char>, KT, bool)>) -> Seq<char>
    decreases s.len(),
{
    if s.len() == 0 {
        Seq::empty()
    } else if s.len() == 1 {
        tbinding_text(s[0])
    } else {
        tbindings_text(s.drop_last()) + " "@ + tbinding_text(s.last())
    }
}

/// The text of a typed statement.
pub open spec fn tstmt_text(s: TStmtV) -> Seq<char>
    decreases s,
{
    match s {
        TStmtV::VarDecl(bs, init) => "(var-decl ("@ + tbindings_text(bs) + ") = "@ + texpr_text(init) + ")"@,
        TStmtV::Assign(l, v) => "(assign "@ + lvalue_sx(l) + " "@ + texpr_text(v) + ")"@,
        TStmtV::Return(vs) => if vs.len() == 0 {
            "(return)"@
        } else {
            "(return"@ + tspaced_text(vs) + ")"@
        },
        TStmtV::If(c, t, e) => "(if "@ + texpr_text(c) + " (then "@ + tstmt_text(*t) + ")"@ + match e {
            Some(x) => " (else "@ + tstmt_text(*x) + ")"@,
            None => Seq::empty(),
        } + ")"@,
        TStmtV::For(n, t, a, b, l, x, body) => "(for "@ + n + " "@ + kt_text(t) + " = "@ + texpr_text(a)
            + " , "@ + texpr_text(b) + " , "@ + lvalue_sx(l) + " "@ + texpr_text(x) + " in "@
            + tstmt_text(*body) + ")"@,
        TStmtV::Expr(e) => "(expr-stmt "@ + texpr_text(e) + ")"@,
        TStmtV::Block(ss) => "(block"@ + tstmts_text(ss) + ")"@,
    }
}

/// Each statement of a block on a line of its own.
pub open spec fn tstmts_text(s: Seq<TStmtV>) -> Seq<char>
    decreases s,
{
    if s.len() == 0 {
        Seq::empty()
    } else {
        tstmts_text(s.drop_last()) + "\n    "@ + tstmt_text(s.last())
    }
}

/// The parameters as `(name type)`, separated by blanks.
pub open spec fn tparams_text(s: Seq<(Seq<char>, KT)>) -> Seq<char>
    decreases s.len(),
{
    if s.len() == 0 {
        Seq::empty()
    } else if s.len() == 1 {
        "("@ + s[0].0 + " "@ + kt_text(s[0].1) + ")"@
    } else {
        tparams_text(s.drop_last()) + " ("@ + s.last().0 + " "@ + kt_text(s.last().1) + ")"@
    }
}

/// A function's line: its name, parameters and return type, and the first
/// statement of its body (the others are not written).
pub open spec fn tfunc_text(f: TFuncV) -> Seq<char> {
    "(func-def \""@ + f.name + "\" ["@ + tparams_text(f.params) + "] -> "@ + kt_text(f.ret) + (if f.body.len()
        > 0 {
        "\n    "@ + tstmt_text(f.body[0])
    } else {
        Seq::empty()
    }) + ")"@
}

/// A top-level item on a line of its own.
pub open spec fn ttop_text(t: TTopV) -> Seq<char> {
    match t {
        TTopV::Struct(d) => "\n  "@ + struct_def_sx(d),
        TTopV::Func(f) => "\n  "@ + tfunc_text(f),
    }
}

pub open spec fn titems_text(s: Seq<TTopV>) -> Seq<char>
    decreases s.len(),
{
    if s.len() == 0 {
        Seq::empty()
    } else {
        titems_text(s.drop_last()) + ttop_text(s.last())
    }
}

/// The text of a typed program.
pub open spec fn tprogram_text(p: Seq<TTopV>) -> Seq<char> {
    "(program"@ + titems_text(p) + ")"@
}

// ── Writing them ────────────────────────────────────────────────────────

pub(crate) proof fn lemma_tevs_take(v: Seq<TypedExpr>, i: int)
    requires
        0 <= i < v.len(),
    ensures
        tevs(v.take(i + 1)) == tevs(v.take(i)).push(tev(&v[i])),
{
    assert(v.take(i + 1).drop_last() =~= v.take(i));
}

pub(crate) proof fn lemma_tevf_take(v: Seq<(String, TypedExpr)>, i: int)
    requires
        0 <= i < v.len(),
    ensures
        tevf(v.take(i + 1)) == tevf(v.take(i)).push((v[i].0@, tev(&v[i].1))),
{
    assert(v.take(i + 1).drop_last() =~= v.take(i));
}

pub(crate) proof fn lemma_tsvs_take(v: Seq<TypedStmt>, i: int)
    requires
        0 <= i < v.len(),
    ensures
        tsvs(v.take(i + 1)) == tsvs(v.take(i)).push(tsv(&v[i])),
{
    assert(v.take(i + 1).drop_last() =~= v.take(i));
}

fn write_kt(t: &KangType, out: &mut String)
    ensures
        final(out)@ == old(out)@ + kt_text(t@),
{
    let s = t.to_text();
    push_str(out, s.as_str());
}

#[verifier::loop_isolation(false)]
fn write_tspaced(v: &Vec<TypedExpr>, out: &mut String)
    ensures
        final(out)@ == old(out)@ + tspaced_text(tevs(v@)),
    decreases v, 0nat,
{
    let mut i: usize = 0;
    assert(v@.take(0) =~= Seq::<TypedExpr>::empty());
    while i < v.len()
        invariant
            i <= v@.len(),
            out@ == old(out)@ + tspaced_text(tevs(v@.take(i as int))),
        decreases v@.len() - i,
    {
        proof {
            assert(decreases_to!(v => v@[i as int]));
            lemma_tevs_take(v@, i as int);
            let x = tevs(v@.take(i as int));
            assert(x.push(tev(&v@[i as int])).drop_last() =~= x);
        }
        push_str(out, " ");
        write_texpr(&v[i], out);
        i += 1;
    }
    assert(v@.take(v@.len() as int) =~= v@);
}

#[verifier::loop_isolation(false)]
fn write_tjoined(v: &Vec<TypedExpr>, out: &mut String)
    ensures
        final(out)@ == old(out)@ + tjoined_text(tevs(v@)),
    decreases v, 0nat,
{
    if v.len() == 0 {
        assert(v@ =~= Seq::<TypedExpr>::empty());
        return;
    }
    proof {
        assert(decreases_to!(v => v@[0]));
        lemma_tevs_take(v@, 0);
        assert(v@.take(0) =~= Seq::<TypedExpr>::empty());
    }
    write_texpr(&v[0], out);
    let mut i: usize = 1;
    while i < v.len()
        invariant
            1 <= i <= v@.len(),
            out@ == old(out)@ + tjoined_text(tevs(v@.take(i as int))),
        decreases v@.len() - i,
    {
        proof {
            assert(decreases_to!(v => v@[i as int]));
            lemma_tevs_take(v@, i as int);
            let x = tevs(v@.take(i as int));
            lemma_tevs(v@.take(i as int));
            assert(x.push(tev(&v@[i as int])).drop_last() =~= x);
        }
        push_str(out, " ");
        write_texpr(&v[i], out);
        i += 1;
    }
    assert(v@.take(v@.len() as int) =~= v@);
}

#[verifier::loop_isolation(false)]
fn write_tfields(v: &Vec<(String, TypedExpr)>, out: &mut String)
    ensures
        final(out)@ == old(out)@ + tfields_text(tevf(v@)),
    decreases v, 0nat,
{
    let mut i: usize = 0;
    assert(v@.take(0) =~= Seq::<(String, TypedExpr)>::empty());
    while i < v.len()
        invariant
            i <= v@.len(),
            out@ == old(out)@ + tfields_text(tevf(v@.take(i as int))),
        decreases v@.len() - i,
    {
        proof {
            assert(decreases_to!(v => v@[i as int].1));
            lemma_tevf_take(v@, i as int);
            let x = tevf(v@.take(i as int));
            assert(x.push((v@[i as int].0@, tev(&v@[i as int].1))).drop_last() =~= x);
        }
        push_str(out, " (");
        push_str(out, v[i].0.as_str());
        push_str(out, " ");
        write_texpr(&v[i].1, out);
        push_str(out, ")");
        i += 1;
    }
    assert(v@.take(v@.len() as int) =~= v@);
}

/// A literal or a name, with its type.
fn write_tleaf(e: &TypedExpr, out: &mut String)
    requires
        e.kind is IntLit || e.kind is FloatLit || e.kind is StrLit || e.kind is BoolLit || e.kind is Ident,
    ensures
        final(out)@ == old(out)@ + texpr_text(e@),
{
    match &e.kind {
        TypedExprKind::IntLit(v) => {
            push_str(out, "(int-lit ");
            push_str(out, v.as_str());
            push_str(out, " ");
            write_kt(&e.ty, out);
            push_str(out, ")");
        },
        TypedExprKind::FloatLit(v) => {
            push_str(out, "(float-lit ");
            push_str(out, v.as_str());
            push_str(out, " ");
            write_kt(&e.ty, out);
            push_str(out, ")");
        },
        TypedExprKind::StrLit(v) => {
            push_str(out, "(str-lit ");
            let q = debug_quoted(v.as_str());
            push_str(out, q.as_str());
            push_str(out, " ");
            write_kt(&e.ty, out);
            push_str(out, ")");
        },
        TypedExprKind::BoolLit(v) => {
            push_str(out, "(bool-lit ");
            if *v {
                push_str(out, "true");
            } else {
                push_str(out, "false");
            }
            push_str(out, " ");
            write_kt(&e.ty, out);
            push_str(out, ")");
        },
        TypedExprKind::Ident(n) => {
            push_str(out, n.as_str());
            push_str(out, " ");
            write_kt(&e.ty, out);
        },
        _ => {},
    }
}

#[verifier::rlimit(100)]
#[verifier::spinoff_prover]
fn write_texpr(e: &TypedExpr, out: &mut String)
    ensures
        final(out)@ == old(out)@ + texpr_text(e@),
    decreases e, 1nat,
{
    match &e.kind {
        TypedExprKind::IntLit(_) | TypedExprKind::FloatLit(_) | TypedExprKind::StrLit(_)
        | TypedExprKind::BoolLit(_) | TypedExprKind::Ident(_) => write_tleaf(e, out),
        TypedExprKind::Binary { left, op, right } => {
            push_str(out, "(");
            push_str(out, binop_str(*op));
            push_str(out, " ");
            write_texpr(&**left, out);
            push_str(out, " ");
            write_texpr(&**right, out);
            push_str(out, " ");
            write_kt(&e.ty, out);
            push_str(out, ")");
        },
        TypedExprKind::Unary { op, expr } => {
            push_str(out, "(");
            push_str(out, unop_str(*op));
            push_str(out, " ");
            write_texpr(&**expr, out);
            push_str(out, " ");
            write_kt(&e.ty, out);
            push_str(out, ")");
        },
        TypedExprKind::Call { func_name, args } => {
            push_str(out, "(call ");
            push_str(out, func_name.as_str());
            push_str(out, " args=(");
            write_tjoined(args, out);
            push_str(out, ") ");
            write_kt(&e.ty, out);
            push_str(out, ")");
        },
        TypedExprKind::Index { array, index } => {
            push_str(out, "(index ");
            write_texpr(&**array, out);
            push_str(out, " ");
            write_texpr(&**index, out);
            push_str(out, " ");
            write_kt(&e.ty, out);
            push_str(out, ")");
        },
        TypedExprKind::FieldAccess { obj, field } => {
            push_str(out, "(. ");
            write_texpr(&**obj, out);
            push_str(out, " ");
            push_str(out, field.as_str());
            push_str(out, " ");
            write_kt(&e.ty, out);
            push_str(out, ")");
        },
        TypedExprKind::ArrayLit(v) => {
            push_str(out, "(array-lit");
            write_tspaced(v, out);
            push_str(out, " ");
            write_kt(&e.ty, out);
            push_str(out, ")");
        },
        TypedExprKind::StructLit { name, fields } => {
            push_str(out, "(struct-lit \"");
            push_str(out, name.as_str());
            push_str(out, "\"");
            write_tfields(fields, out);
            push_str(out, " ");
            write_kt(&e.ty, out);
            push_str(out, ")");
        },
    }
}

fn write_tbindings(v: &Vec<(String, KangType, bool)>, out: &mut String)
    ensures
        final(out)@ == old(out)@ + tbindings_text(typed_bindings(v@)),
{
    let ghost bs = typed_bindings(v@);
    let mut i: usize = 0;
    assert(typed_bindings(v@.take(0)) =~= Seq::<(Seq<char>, KT, bool)>::empty());
    while i < v.len()
        invariant
            i <= v@.len(),
            bs == typed_bindings(v@),
            out@ == old(out)@ + tbindings_text(typed_bindings(v@.take(i as int))),
        decreases v@.len() - i,
    {
        let ghost x = typed_bindings(v@.take(i as int));
        assert(typed_bindings(v@.take(i as int + 1)) =~= x.push((v@[i as int].0@, v@[i as int].1@, v@[i as int].2)));
        assert(x.push((v@[i as int].0@, v@[i as int].1@, v@[i as int].2)).drop_last() =~= x);
        if i > 0 {
            push_str(out, " ");
        }
        if v[i].2 {
            push_str(out, "_");
        } else {
            push_str(out, v[i].0.as_str());
            push_str(out, " ");
            write_kt(&v[i].1, out);
        }
        proof {
            if i == 0 {
                assert(x.len() == 0);
                assert(x.push((v@[0].0@, v@[0].1@, v@[0].2))[0] == (v@[0].0@, v@[0].1@, v@[0].2));
            }
        }
        i += 1;
    }
    assert(v@.take(v@.len() as int) =~= v@);
}

#[verifier::loop_isolation(false)]
fn write_tstmts(v: &Vec<TypedStmt>, out: &mut String)
    ensures
        final(out)@ == old(out)@ + tstmts_text(tsvs(v@)),
    decreases v, 0nat,
{
    let mut i: usize = 0;
    assert(v@.take(0) =~= Seq::<TypedStmt>::empty());
    while i < v.len()
        invariant
            i <= v@.len(),
            out@ == old(out)@ + tstmts_text(tsvs(v@.take(i as int))),
        decreases v@.len() - i,
    {
        proof {
            assert(decreases_to!(v => v@[i as int]));
            lemma_tsvs_take(v@, i as int);
            let x = tsvs(v@.take(i as int));
            assert(x.push(tsv(&v@[i as int])).drop_last() =~= x);
        }
        push_str(out, "\n    ");
        write_tstmt(&v[i], out);
        i += 1;
    }
    assert(v@.take(v@.len() as int) =~= v@);
}

#[verifier::rlimit(60)]
#[verifier::spinoff_prover]
fn write_tstmt(s: &TypedStmt, out: &mut String)
    ensures
        final(out)@ == old(out)@ + tstmt_text(s@),
    decreases s, 1nat,
{
    match &s.kind {
        TypedStmtKind::VarDecl { bindings, init } => {
            push_str(out, "(var-decl (");
            write_tbindings(bindings, out);
            push_str(out, ") = ");
            write_texpr(&**init, out);
            push_str(out, ")");
        },
        TypedStmtKind::Assign { lvalue, value } => {
            push_str(out, "(assign ");
            let l = lvalue.to_sexpr();
            push_str(out, l.as_str());
            push_str(out, " ");
            write_texpr(&**value, out);
            push_str(out, ")");
        },
        TypedStmtKind::Return { values } => {
            proof {
                lemma_tevs(values@);
            }
            if values.len() == 0 {
                push_str(out, "(return)");
            } else {
                push_str(out, "(return");
                write_tspaced(values, out);
                push_str(out, ")");
            }
        },
        TypedStmtKind::If { condition, then_branch, else_branch } => {
            push_str(out, "(if ");
            write_texpr(&**condition, out);
            push_str(out, " (then ");
            write_tstmt(&**then_branch, out);
            push_str(out, ")");
            match else_branch {
                Some(x) => {
                    push_str(out, " (else ");
                    write_tstmt(&**x, out);
                    push_str(out, ")");
                },
                None => {},
            }
            push_str(out, ")");
        },
        TypedStmtKind::For { var_name, var_type, start, end, step_lvalue, step_expr, body } => {
            push_str(out, "(for ");
            push_str(out, var_name.as_str());
            push_str(out, " ");
            write_kt(var_type, out);
            push_str(out, " = ");
            write_texpr(&**start, out);
            push_str(out, " , ");
            write_texpr(&**end, out);
            push_str(out, " , ");
            let l = step_lvalue.to_sexpr();
            push_str(out, l.as_str());
            push_str(out, " ");
            write_texpr(&**step_expr, out);
            push_str(out, " in ");
            write_tstmt(&**body, out);
            push_str(out, ")");
        },
        TypedStmtKind::Expr(e) => {
            push_str(out, "(expr-stmt ");
            write_texpr(&**e, out);
            push_str(out, ")");
        },
        TypedStmtKind::Block(v) => {
            push_str(out, "(block");
            write_tstmts(v, out);
            push_str(out, ")");
        },
    }
}

fn write_tparams(v: &Vec<(String, KangType)>, out: &mut String)
    ensures
        final(out)@ == old(out)@ + tparams_text(typed_params(v@)),
{
    let mut i: usize = 0;
    assert(typed_params(v@.take(0)) =~= Seq::<(Seq<char>, KT)>::empty());
    while i < v.len()
        invariant
            i <= v@.len(),
            out@ == old(out)@ + tparams_text(typed_params(v@.take(i as int))),
        decreases v@.len() - i,
    {
        let ghost x = typed_params(v@.take(i as int));
        assert(typed_params(v@.take(i as int + 1)) =~= x.push((v@[i as int].0@, v@[i as int].1@)));
        assert(x.push((v@[i as int].0@, v@[i as int].1@)).drop_last() =~= x);
        if i == 0 {
            push_str(out, "(");
        } else {
            push_str(out, " (");
        }
        push_str(out, v[i].0.as_str());
        push_str(out, " ");
        write_kt(&v[i].1, out);
        push_str(out, ")");
        proof {
            if i == 0 {
                assert(x.len() == 0);
                assert(x.push((v@[0].0@, v@[0].1@))[0] == (v@[0].0@, v@[0].1@));
            }
        }
        i += 1;
    }
    assert(v@.take(v@.len() as int) =~= v@);
}

fn write_tfunc(f: &TypedFuncDef, out: &mut String)
    ensures
        final(out)@ == old(out)@ + tfunc_text(f@),
{
    push_str(out, "(func-def \"");
    push_str(out, f.name.as_str());
    push_str(out, "\" [");
    write_tparams(&f.params, out);
    push_str(out, "] -> ");
    write_kt(&f.return_type, out);
    proof {
        lemma_tsvs(f.body@);
    }
    if f.body.len() > 0 {
        push_str(out, "\n    ");
        write_tstmt(&f.body[0], out);
    }
    push_str(out, ")");
}

impl TypedExpr {
    /// The text of the expression, each part followed by its type.
    pub fn to_text(&self) -> (r: String)
        ensures
            r@ == texpr_text(self@),
    {
        let mut out = String::new();
        write_texpr(self, &mut out);
        out
    }
}

impl TypedStmt {
    /// The text of the statement (see `tstmt_text`).
    pub fn to_text(&self) -> (r: String)
        ensures
            r@ == tstmt_text(self@),
    {
        let mut out = String::new();
        write_tstmt(self, &mut out);
        out
    }
}

impl TypedProgram {
    /// The text of the program: its structs, and each function's header with
    /// the first statement of its body.
    pub fn to_text(&self) -> (r: String)
        ensures
            r@ == tprogram_text(self@),
    {
        let mut out = String::new();
        push_str(&mut out, "(program");
        let ghost p = self@;
        let mut i: usize = 0;
        assert(p.take(0) =~= Seq::<TTopV>::empty());
        while i < self.items.len()
            invariant
                i <= self.items@.len(),
                p == self@,
                out@ == "(program"@ + titems_text(p.take(i as int)),
            decreases self.items@.len() - i,
        {
            assert(p.take(i as int + 1).drop_last() =~= p.take(i as int));
            match &self.items[i] {
                TypedTopLevel::Struct(d) => {
                    push_str(&mut out, "\n  ");
                    let t = d.to_sexpr();
                    push_str(&mut out, t.as_str());
                },
                TypedTopLevel::Func(f) => {
                    push_str(&mut out, "\n  ");
                    write_tfunc(f, &mut out);
                },
            }
            i += 1;
        }
        assert(p.take(p.len() as int) =~= p);
        push_str(&mut out, ")");
        out
    }
}

} // verus!
