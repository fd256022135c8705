//! The debug text of a typed program, as the `--emit=typed-ast` stage shows
//! it: every struct as `Name { field: value, .. }`, every variant as
//! `Variant(..)` or `Variant { .. }`, lists in brackets, strings quoted and
//! escaped, spans as `start..end`.

use vstd::prelude::*;
use crate::ast::{
    bool_text, ev, evf, evs, lemma_evf_take, lemma_evs, lemma_evs_take, lv_v, span_v, typed_names, BaseType,
    BaseTypeV, BinOp, Expr, ExprV, LValue, LValueV, SpanV, StructDef, StructDefV, Type, TypeV, UnaryOp,
};
use crate::semantic::typed_text::{lemma_tevf_take, lemma_tevs_take, lemma_tsvs_take};
use crate::semantic::types::{
    lemma_tevs, lemma_tsvs, tev, tevf, tevs, tsv, tsvs, typed_bindings, typed_params, KangType, TExprV, TFuncV,
    TKindV, TStmtV, TTopV, TypedExpr, TypedExprKind, TypedFuncDef, TypedProgram, TypedStmt, TypedStmtKind,
    TypedTopLevel, KT,
};
use crate::text::{debug_quoted, debug_str, decimal, push_decimal, push_str};

verus! {

// ── The syntax tree's parts ─────────────────────────────────────────────

pub open spec fn span_dbg(s: SpanV) -> Seq<char> {
    decimal(s.0 as nat) + ".."@ + decimal(s.1 as nat)
}

pub open spec fn base_dbg(b: BaseTypeV) -> Seq<char> {
    match b {
        BaseTypeV::I32 => "I32"@,
        BaseTypeV::F64 => "F64"@,
        BaseTypeV::Str => "Str"@,
        BaseTypeV::Bool => "Bool"@,
        BaseTypeV::Void => "Void"@,
        BaseTypeV::UserDef(n) => "UserDef("@ + debug_str(n) + ")"@,
    }
}

pub open spec fn type_dbg(t: TypeV) -> Seq<char> {
    match t {
        TypeV::Base(b) => "Base("@ + base_dbg(b) + ")"@,
        TypeV::Array(b) => "Array("@ + base_dbg(b) + ")"@,
    }
}

pub open spec fn binop_dbg(op: BinOp) -> Seq<char> {
    match op {
        BinOp::Or => "Or"@,
        BinOp::And => "And"@,
        BinOp::Eq => "Eq"@,
        BinOp::Neq => "Neq"@,
        BinOp::Lt => "Lt"@,
        BinOp::Le => "Le"@,
        BinOp::Gt => "Gt"@,
        BinOp::Ge => "Ge"@,
        BinOp::Add => "Add"@,
        BinOp::Sub => "Sub"@,
        BinOp::Mul => "Mul"@,
        BinOp::Div => "Div"@,
    }
}

pub open spec fn unop_dbg(op: UnaryOp) -> Seq<char> {
    match op {
        UnaryOp::Neg => "Neg"@,
        UnaryOp::Not => "Not"@,
    }
}

/// The debug text of a syntax-tree expression.
pub open spec fn expr_dbg(e: ExprV) -> Seq<char>
    decreases e,
{
    match e {
        ExprV::Binary(l, op, r, s) => "Binary { left: "@ + expr_dbg(*l) + ", op: "@ + binop_dbg(op) + ", right: "@
            + expr_dbg(*r) + ", span: "@ + span_dbg(s) + " }"@,
        ExprV::Unary(op, x, s) => "Unary { op: "@ + unop_dbg(op) + ", expr: "@ + expr_dbg(*x) + ", span: "@
            + span_dbg(s) + " }"@,
        ExprV::Call(f, args, s) => "Call { func: "@ + expr_dbg(*f) + ", args: ["@ + exprs_dbg(args) + "], span: "@
            + span_dbg(s) + " }"@,
        ExprV::Index(a, i, s) => "Index { array: "@ + expr_dbg(*a) + ", index: "@ + expr_dbg(*i) + ", span: "@
            + span_dbg(s) + " }"@,
        ExprV::Field(o, f, s) => "FieldAccess { obj: "@ + expr_dbg(*o) + ", field: "@ + debug_str(f) + ", span: "@
            + span_dbg(s) + " }"@,
        ExprV::IntLit(v, s) => "IntLit("@ + debug_str(v) + ", "@ + span_dbg(s) + ")"@,
        ExprV::FloatLit(v, s) => "FloatLit("@ + debug_str(v) + ", "@ + span_dbg(s) + ")"@,
        ExprV::StrLit(v, s) => "StrLit("@ + debug_str(v) + ", "@ + span_dbg(s) + ")"@,
        ExprV::BoolLit(b, s) => "BoolLit("@ + bool_text(b) + ", "@ + span_dbg(s) + ")"@,
        ExprV::ArrayLit(v, s) => "ArrayLit(["@ + exprs_dbg(v) + "], "@ + span_dbg(s) + ")"@,
        ExprV::StructLit(n, fs, s) => "StructLit { name: "@ + debug_str(n) + ", fields: ["@ + efields_dbg(fs)
            + "], span: "@ + span_dbg(s) + " }"@,
        ExprV::Ident(n, s) => "Ident("@ + debug_str(n) + ", "@ + span_dbg(s) + ")"@,
    }
}

/// The expressions separated by `, `.
pub open spec fn exprs_dbg(s: Seq<ExprV>) -> Seq<char>
    decreases s,
{
    if s.len() == 0 {
        Seq::empty()
    } else if s.len() == 1 {
        expr_dbg(s[0])
    } else {
        exprs_dbg(s.drop_last()) + ", "@ + expr_dbg(s.last())
    }
}

/// The field initializers as `("name", value)`, separated by `, `.
pub open spec fn efields_dbg(s: Seq<(Seq<char>, ExprV)>) -> Seq<char>
    decreases s,
{
    if s.len() == 0 {
        Seq::empty()
    } else if s.len() == 1 {
        "("@ + debug_str(s[0].0) + ", "@ + expr_dbg(s[0].1) + ")"@
    } else {
        efields_dbg(s.drop_last()) + ", ("@ + debug_str(s.last().0) + ", "@ + expr_dbg(s.last().1) + ")"@
    }
}

pub open spec fn lvalue_dbg(l: LValueV) -> Seq<char> {
    match l {
        LValueV::Ident(n, s) => "Ident("@ + debug_str(n) + ", "@ + span_dbg(s) + ")"@,
        LValueV::Index(a, i, s) => "Index { array: "@ + expr_dbg(a) + ", index: "@ + expr_dbg(i) + ", span: "@
            + span_dbg(s) + " }"@,
        LValueV::Field(o, f, s) => "FieldAccess { obj: "@ + expr_dbg(o) + ", field: "@ + debug_str(f) + ", span: "@
            + span_dbg(s) + " }"@,
    }
}

/// The fields of a struct definition as `("name", type)`, separated by `, `.
pub open spec fn sfields_dbg(s: Seq<(Seq<char>, TypeV)>) -> Seq<char>
    decreases s.len(),
{
    if s.len() == 0 {
        Seq::empty()
    } else if s.len() == 1 {
        "("@ + debug_str(s[0].0) + ", "@ + type_dbg(s[0].1) + ")"@
    } else {
        sfields_dbg(s.drop_last()) + ", ("@ + debug_str(s.last().0) + ", "@ + type_dbg(s.last().1) + ")"@
    }
}

pub open spec fn struct_dbg(d: StructDefV) -> Seq<char> {
    "StructDef { name: "@ + debug_str(d.name) + ", fields: ["@ + sfields_dbg(d.fields) + "] }"@
}

// ── The typed tree ──────────────────────────────────────────────────────

pub open spec fn kt_dbg(t: KT) -> Seq<char>
    decreases t,
{
    match t {
        KT::I32 => "I32"@,
        KT::F64 => "F64"@,
        KT::Str => "Str"@,
        KT::Bool => "Bool"@,
        KT::Void => "Void"@,
        KT::Array(e) => "Array("@ + kt_dbg(*e) + ")"@,
        KT::Struct(n) => "Struct("@ + debug_str(n) + ")"@,
        KT::Pair(a, b) => "Pair("@ + kt_dbg(*a) + ", "@ + kt_dbg(*b) + ")"@,
    }
}

/// The debug text of a typed expression.
pub open spec fn texpr_dbg(e: TExprV) -> Seq<char>
    decreases e,
{
    "TypedExpr { kind: "@ + match e.kind {
        TKindV::IntLit(v) => "IntLit("@ + debug_str(v) + ")"@,
        TKindV::FloatLit(v) => "FloatLit("@ + debug_str(v) + ")"@,
        TKindV::StrLit(v) => "StrLit("@ + debug_str(v) + ")"@,
        TKindV::BoolLit(b) => "BoolLit("@ + bool_text(b) + ")"@,
        TKindV::Ident(n) => "Ident("@ + debug_str(n) + ")"@,
        TKindV::Binary(l, op, r) => "Binary { left: "@ + texpr_dbg(*l) + ", op: "@ + binop_dbg(op) + ", right: "@
            + texpr_dbg(*r) + " }"@,
        TKindV::Unary(op, x) => "Unary { op: "@ + unop_dbg(op) + ", expr: "@ + texpr_dbg(*x) + " }"@,
        TKindV::Call(n, args) => "Call { func_name: "@ + debug_str(n) + ", args: ["@ + texprs_dbg(args) + "] }"@,
        TKindV::Index(a, i) => "Index { array: "@ + texpr_dbg(*a) + ", index: "@ + texpr_dbg(*i) + " }"@,
        TKindV::Field(o, f) => "FieldAccess { obj: "@ + texpr_dbg(*o) + ", field: "@ + debug_str(f) + " }"@,
        TKindV::ArrayLit(v) => "ArrayLit(["@ + texprs_dbg(v) + "])"@,
        TKindV::StructLit(n, fs) => "StructLit { name: "@ + debug_str(n) + ", fields: ["@ + tfields_dbg(fs) + "] }"@,
    } + ", ty: "@ + kt_dbg(e.ty) + " }"@
}

/// The typed expressions separated by `, `.
pub open spec fn texprs_dbg(s: Seq<TExprV>) -> Seq<char>
    decreases s,
{
    if s.len() == 0 {
        Seq::empty()
    } else if s.len() == 1 {
        texpr_dbg(s[0])
    } else {
        texprs_dbg(s.drop_last()) + ", "@ + texpr_dbg(s.last())
    }
}

/// Typed field initializers as `("name", value)`, separated by `, `.
pub open spec fn tfields_dbg(s: Seq<(Seq<char>, TExprV)>) -> Seq<char>
    decreases s,
{
    if s.len() == 0 {
        Seq::empty()
    } else if s.len() == 1 {
        "("@ + debug_str(s[0].0) + ", "@ + texpr_dbg(s[0].1) + ")"@
    } else {
        tfields_dbg(s.drop_last()) + ", ("@ + debug_str(s.last().0) + ", "@ + texpr_dbg(s.last().1) + ")"@
    }
}

pub open spec fn tbind_dbg(b: (Seq<char>, KT, bool)) -> Seq<char> {
    "("@ + debug_str(b.0) + ", "@ + kt_dbg(b.1) + ", "@ + bool_text(b.2) + ")"@
}

/// The bindings of a declaration as `("name", type, discard)`, separated by `, `.
pub open spec fn tbinds_dbg(s: Seq<(Seq<char>, KT, bool)>) -> Seq<char>
    decreases s.len(),
{
    if s.len() == 0 {
        Seq::empty()
    } else if s.len() == 1 {
        tbind_dbg(s[0])
    } else {
        tbinds_dbg(s.drop_last()) + ", "@ + tbind_dbg(s.last())
    }
}

/// The debug text of a typed statement.
pub open spec fn tstmt_dbg(s: TStmtV) -> Seq<char>
    decreases s, 1nat,
{
    "TypedStmt { kind: "@ + tskind_dbg(s) + " }"@
}

/// The debug text of a typed statement's kind.
pub open spec fn tskind_dbg(s: TStmtV) -> Seq<char>
    decreases s, 0nat,
{
    match s {
        TStmtV::VarDecl(bs, init) => "VarDecl { bindings: ["@ + tbinds_dbg(bs) + "], init: "@ + texpr_dbg(init)
            + " }"@,
        TStmtV::Assign(l, v) => "Assign { lvalue: "@ + lvalue_dbg(l) + ", value: "@ + texpr_dbg(v) + " }"@,
        TStmtV::Return(vs) => "Return { values: ["@ + texprs_dbg(vs) + "] }"@,
        TStmtV::If(c, t, e) => "If { condition: "@ + texpr_dbg(c) + ", then_branch: "@ + tstmt_dbg(*t)
            + ", else_branch: "@ + match e {
            Some(x) => "Some("@ + tstmt_dbg(*x) + ")"@,
            None => "None"@,
        } + " }"@,
        TStmtV::For(n, t, a, b, l, x, body) => "For { var_name: "@ + debug_str(n) + ", var_type: "@ + kt_dbg(t)
            + ", start: "@ + texpr_dbg(a) + ", end: "@ + texpr_dbg(b) + ", step_lvalue: "@ + lvalue_dbg(l)
            + ", step_expr: "@ + texpr_dbg(x) + ", body: "@ + tstmt_dbg(*body) + " }"@,
        TStmtV::Expr(e) => "Expr("@ + texpr_dbg(e) + ")"@,
        TStmtV::Block(ss) => "Block(["@ + tstmts_dbg(ss) + "])"@,
    }
}

/// The typed statements separated by `, `.
pub open spec fn tstmts_dbg(s: Seq<TStmtV>) -> Seq<char>
    decreases s, 0nat,
{
    if s.len() == 0 {
        Seq::empty()
    } else if s.len() == 1 {
        tstmt_dbg(s[0])
    } else {
        tstmts_dbg(s.drop_last()) + ", "@ + tstmt_dbg(s.last())
    }
}

/// The parameters as `("name", type)`, separated by `, `.
pub open spec fn tparams_dbg(s: Seq<(Seq<char>, KT)>) -> Seq<char>
    decreases s.len(),
{
    if s.len() == 0 {
        Seq::empty()
    } else if s.len() == 1 {
        "("@ + debug_str(s[0].0) + ", "@ + kt_dbg(s[0].1) + ")"@
    } else {
        tparams_dbg(s.drop_last()) + ", ("@ + debug_str(s.last().0) + ", "@ + kt_dbg(s.last().1) + ")"@
    }
}

pub open spec fn tfunc_dbg(f: TFuncV) -> Seq<char> {
    "TypedFuncDef { name: "@ + debug_str(f.name) + ", params: ["@ + tparams_dbg(f.params) + "], return_type: "@
        + kt_dbg(f.ret) + ", body: ["@ + tstmts_dbg(f.body) + "] }"@
}

pub open spec fn ttop_dbg(t: TTopV) -> Seq<char> {
    match t {
        TTopV::Struct(d) => "Struct("@ + struct_dbg(d) + ")"@,
        TTopV::Func(f) => "Func("@ + tfunc_dbg(f) + ")"@,
    }
}

/// The items separated by `, `.
pub open spec fn ttops_dbg(s: Seq<TTopV>) -> Seq<char>
    decreases s.len(),
{
    if s.len() == 0 {
        Seq::empty()
    } else if s.len() == 1 {
        ttop_dbg(s[0])
    } else {
        ttops_dbg(s.drop_last()) + ", "@ + ttop_dbg(s.last())
    }
}

/// The debug text of a typed program.
pub open spec fn typed_debug(p: Seq<TTopV>) -> Seq<char> {
    "TypedProgram { items: ["@ + ttops_dbg(p) + "] }"@
}

// ── Writing the syntax tree's parts ─────────────────────────────────────

fn write_quoted(s: &String, out: &mut String)
    ensures
        final(out)@ == old(out)@ + debug_str(s@),
{
    let q = debug_quoted(s.as_str());
    push_str(out, q.as_str());
}

fn write_span(s: &std::ops::Range<usize>, out: &mut String)
    ensures
        final(out)@ == old(out)@ + span_dbg(span_v(*s)),
{
    push_decimal(out, s.start);
    push_str(out, "..");
    push_decimal(out, s.end);
}

fn write_bool(b: bool, out: &mut String)
    ensures
        final(out)@ == old(out)@ + bool_text(b),
{
    if b {
        push_str(out, "true");
    } else {
        push_str(out, "false");
    }
}

fn base_word(b: &BaseType, out: &mut String)
    ensures
        final(out)@ == old(out)@ + base_dbg(b@),
{
    match b {
        BaseType::I32 => push_str(out, "I32"),
        BaseType::F64 => push_str(out, "F64"),
        BaseType::Str => push_str(out, "Str"),
        BaseType::Bool => push_str(out, "Bool"),
        BaseType::Void => push_str(out, "Void"),
        BaseType::UserDef(n) => {
            push_str(out, "UserDef(");
            write_quoted(n, out);
            push_str(out, ")");
        },
    }
}

fn write_type_dbg(t: &Type, out: &mut String)
    ensures
        final(out)@ == old(out)@ + type_dbg(t@),
{
    match t {
        Type::Base(b) => {
            push_str(out, "Base(");
            base_word(b, out);
            push_str(out, ")");
        },
        Type::Array(b) => {
            push_str(out, "Array(");
            base_word(b, out);
            push_str(out, ")");
        },
    }
}

fn binop_word(op: BinOp) -> (r: &'static str)
    ensures
        r@ == binop_dbg(op),
{
    match op {
        BinOp::Or => "Or",
        BinOp::And => "And",
        BinOp::Eq => "Eq",
        BinOp::Neq => "Neq",
        BinOp::Lt => "Lt",
        BinOp::Le => "Le",
        BinOp::Gt => "Gt",
        BinOp::Ge => "Ge",
        BinOp::Add => "Add",
        BinOp::Sub => "Sub",
        BinOp::Mul => "Mul",
        BinOp::Div => "Div",
    }
}

fn unop_word(op: UnaryOp) -> (r: &'static str)
    ensures
        r@ == unop_dbg(op),
{
    match op {
        UnaryOp::Neg => "Neg",
        UnaryOp::Not => "Not",
    }
}

#[verifier::loop_isolation(false)]
fn write_exprs_dbg(v: &Vec<Expr>, out: &mut String)
    ensures
        final(out)@ == old(out)@ + exprs_dbg(evs(v@)),
    decreases v, 0nat,
{
    let mut i: usize = 0;
    assert(v@.take(0) =~= Seq::<Expr>::empty());
    while i < v.len()
        invariant
            i <= v@.len(),
            out@ == old(out)@ + exprs_dbg(evs(v@.take(i as int))),
        decreases v@.len() - i,
    {
        proof {
            assert(decreases_to!(v => v@[i as int]));
            lemma_evs_take(v@, i as int);
            lemma_evs(v@.take(i as int));
            let x = evs(v@.take(i as int));
            assert(x.push(ev(&v@[i as int])).drop_last() =~= x);
        }
        if i > 0 {
            push_str(out, ", ");
        }
        write_expr_dbg(&v[i], out);
        i += 1;
    }
    assert(v@.take(v@.len() as int) =~= v@);
}

#[verifier::loop_isolation(false)]
fn write_efields_dbg(v: &Vec<(String, Expr)>, out: &mut String)
    ensures
        final(out)@ == old(out)@ + efields_dbg(evf(v@)),
    decreases v, 0nat,
{
    let mut i: usize = 0;
    assert(v@.take(0) =~= Seq::<(String, Expr)>::empty());
    while i < v.len()
        invariant
            i <= v@.len(),
            out@ == old(out)@ + efields_dbg(evf(v@.take(i as int))),
        decreases v@.len() - i,
    {
        proof {
            assert(decreases_to!(v => v@[i as int].1));
            lemma_evf_take(v@, i as int);
            crate::ast::lemma_evf(v@.take(i as int));
            let x = evf(v@.take(i as int));
            assert(x.push((v@[i as int].0@, ev(&v@[i as int].1))).drop_last() =~= x);
        }
        if i > 0 {
            push_str(out, ", (");
        } else {
            push_str(out, "(");
        }
        write_quoted(&v[i].0, out);
        push_str(out, ", ");
        write_expr_dbg(&v[i].1, out);
        push_str(out, ")");
        i += 1;
    }
    assert(v@.take(v@.len() as int) =~= v@);
}

#[verifier::rlimit(100)]
#[verifier::spinoff_prover]
fn write_expr_dbg(e: &Expr, out: &mut String)
    ensures
        final(out)@ == old(out)@ + expr_dbg(e@),
    decreases e, 1nat,
{
    match e {
        Expr::Binary { left, op, right, span } => {
            push_str(out, "Binary { left: ");
            write_expr_dbg(&**left, out);
            push_str(out, ", op: ");
            push_str(out, binop_word(*op));
            push_str(out, ", right: ");
            write_expr_dbg(&**right, out);
            push_str(out, ", span: ");
            write_span(span, out);
            push_str(out, " }");
        },
        Expr::Unary { op, expr, span } => {
            push_str(out, "Unary { op: ");
            push_str(out, unop_word(*op));
            push_str(out, ", expr: ");
            write_expr_dbg(&**expr, out);
            push_str(out, ", span: ");
            write_span(span, out);
            push_str(out, " }");
        },
        Expr::Call { func, args, span } => {
            push_str(out, "Call { func: ");
            write_expr_dbg(&**func, out);
            push_str(out, ", args: [");
            write_exprs_dbg(args, out);
            push_str(out, "], span: ");
            write_span(span, out);
            push_str(out, " }");
        },
        Expr::Index { array, index, span } => {
            push_str(out, "Index { array: ");
            write_expr_dbg(&**array, out);
            push_str(out, ", index: ");
            write_expr_dbg(&**index, out);
            push_str(out, ", span: ");
            write_span(span, out);
            push_str(out, " }");
        },
        Expr::FieldAccess { obj, field, span } => {
            push_str(out, "FieldAccess { obj: ");
            write_expr_dbg(&**obj, out);
            push_str(out, ", field: ");
            write_quoted(field, out);
            push_str(out, ", span: ");
            write_span(span, out);
            push_str(out, " }");
        },
        Expr::IntLit(v, span) => {
            push_str(out, "IntLit(");
            write_quoted(v, out);
            push_str(out, ", ");
            write_span(span, out);
            push_str(out, ")");
        },
        Expr::FloatLit(v, span) => {
            push_str(out, "FloatLit(");
            write_quoted(v, out);
            push_str(out, ", ");
            write_span(span, out);
            push_str(out, ")");
        },
        Expr::StrLit(v, span) => {
            push_str(out, "StrLit(");
            write_quoted(v, out);
            push_str(out, ", ");
            write_span(span, out);
            push_str(out, ")");
        },
        Expr::BoolLit(b, span) => {
            push_str(out, "BoolLit(");
            write_bool(*b, out);
            push_str(out, ", ");
            write_span(span, out);
            push_str(out, ")");
        },
        Expr::ArrayLit(v, span) => {
            push_str(out, "ArrayLit([");
            write_exprs_dbg(v, out);
            push_str(out, "], ");
            write_span(span, out);
            push_str(out, ")");
        },
        Expr::StructLit { name, fields, span } => {
            push_str(out, "StructLit { name: ");
            write_quoted(name, out);
            push_str(out, ", fields: [");
            write_efields_dbg(fields, out);
            push_str(out, "], span: ");
            write_span(span, out);
            push_str(out, " }");
        },
        Expr::Ident(n, span) => {
            push_str(out, "Ident(");
            write_quoted(n, out);
            push_str(out, ", ");
            write_span(span, out);
            push_str(out, ")");
        },
    }
}

fn write_lvalue_dbg(l: &LValue, out: &mut String)
    ensures
        final(out)@ == old(out)@ + lvalue_dbg(lv_v(l)),
{
    match l {
        LValue::Ident(n, span) => {
            push_str(out, "Ident(");
            write_quoted(n, out);
            push_str(out, ", ");
            write_span(span, out);
            push_str(out, ")");
        },
        LValue::Index { array, index, span } => {
            push_str(out, "Index { array: ");
            write_expr_dbg(&**array, out);
            push_str(out, ", index: ");
            write_expr_dbg(&**index, out);
            push_str(out, ", span: ");
            write_span(span, out);
            push_str(out, " }");
        },
        LValue::FieldAccess { obj, field, span } => {
            push_str(out, "FieldAccess { obj: ");
            write_expr_dbg(&**obj, out);
            push_str(out, ", field: ");
            write_quoted(field, out);
            push_str(out, ", span: ");
            write_span(span, out);
            push_str(out, " }");
        },
    }
}

fn write_struct_dbg(d: &StructDef, out: &mut String)
    ensures
        final(out)@ == old(out)@ + struct_dbg(d@),
{
    push_str(out, "StructDef { name: ");
    write_quoted(&d.name, out);
    push_str(out, ", fields: [");
    let v = &d.fields;
    let ghost start = out@;
    let mut i: usize = 0;
    assert(typed_names(v@.take(0)) =~= Seq::<(Seq<char>, TypeV)>::empty());
    while i < v.len()
        invariant
            i <= v@.len(),
            out@ == start + sfields_dbg(typed_names(v@.take(i as int))),
        decreases v@.len() - i,
    {
        let ghost x = typed_names(v@.take(i as int));
        assert(typed_names(v@.take(i as int + 1)) =~= x.push((v@[i as int].0@, v@[i as int].1@)));
        assert(x.push((v@[i as int].0@, v@[i as int].1@)).drop_last() =~= x);
        if i > 0 {
            push_str(out, ", (");
        } else {
            push_str(out, "(");
        }
        write_quoted(&v[i].0, out);
        push_str(out, ", ");
        write_type_dbg(&v[i].1, out);
        push_str(out, ")");
        proof {
            if i == 0 {
                assert(x.len() == 0);
                assert(x.push((v@[0].0@, v@[0].1@))[0] == (v@[0].0@, v@[0].1@));
            }
        }
        i += 1;
    }
    assert(v@.take(v@.len() as int) =~= v@);
    push_str(out, "] }");
}

// ── Writing the typed tree ──────────────────────────────────────────────

fn write_kt_dbg(t: &KangType, out: &mut String)
    ensures
        final(out)@ == old(out)@ + kt_dbg(t@),
    decreases t,
{
    match t {
        KangType::I32 => push_str(out, "I32"),
        KangType::F64 => push_str(out, "F64"),
        KangType::Str => push_str(out, "Str"),
        KangType::Bool => push_str(out, "Bool"),
        KangType::Void => push_str(out, "Void"),
        KangType::Array(e) => {
            push_str(out, "Array(");
            write_kt_dbg(&**e, out);
            push_str(out, ")");
        },
        KangType::Struct(n) => {
            push_str(out, "Struct(");
            write_quoted(n, out);
            push_str(out, ")");
        },
        KangType::Pair(a, b) => {
            push_str(out, "Pair(");
            write_kt_dbg(&**a, out);
            push_str(out, ", ");
            write_kt_dbg(&**b, out);
            push_str(out, ")");
        },
    }
}

#[verifier::loop_isolation(false)]
fn write_texprs_dbg(v: &Vec<TypedExpr>, out: &mut String)
    ensures
        final(out)@ == old(out)@ + texprs_dbg(tevs(v@)),
    decreases v, 0nat,
{
    let mut i: usize = 0;
    assert(v@.take(0) =~= Seq::<TypedExpr>::empty());
    while i < v.len()
        invariant
            i <= v@.len(),
            out@ == old(out)@ + texprs_dbg(tevs(v@.take(i as int))),
        decreases v@.len() - i,
    {
        proof {
            assert(decreases_to!(v => v@[i as int]));
            lemma_tevs_take(v@, i as int);
            lemma_tevs(v@.take(i as int));
            let x = tevs(v@.take(i as int));
            assert(x.push(tev(&v@[i as int])).drop_last() =~= x);
        }
        if i > 0 {
            push_str(out, ", ");
        }
        write_texpr_dbg(&v[i], out);
        i += 1;
    }
    assert(v@.take(v@.len() as int) =~= v@);
}

#[verifier::loop_isolation(false)]
fn write_tfields_dbg(v: &Vec<(String, TypedExpr)>, out: &mut String)
    ensures
        final(out)@ == old(out)@ + tfields_dbg(tevf(v@)),
    decreases v, 0nat,
{
    let mut i: usize = 0;
    assert(v@.take(0) =~= Seq::<(String, TypedExpr)>::empty());
    while i < v.len()
        invariant
            i <= v@.len(),
            out@ == old(out)@ + tfields_dbg(tevf(v@.take(i as int))),
        decreases v@.len() - i,
    {
        proof {
            assert(decreases_to!(v => v@[i as int].1));
            lemma_tevf_take(v@, i as int);
            crate::semantic::types::lemma_tevf(v@.take(i as int));
            let x = tevf(v@.take(i as int));
            assert(x.push((v@[i as int].0@, tev(&v@[i as int].1))).drop_last() =~= x);
        }
        if i > 0 {
            push_str(out, ", (");
        } else {
            push_str(out, "(");
        }
        write_quoted(&v[i].0, out);
        push_str(out, ", ");
        write_texpr_dbg(&v[i].1, out);
        push_str(out, ")");
        i += 1;
    }
    assert(v@.take(v@.len() as int) =~= v@);
}

#[verifier::rlimit(100)]
#[verifier::spinoff_prover]
fn write_texpr_dbg(e: &TypedExpr, out: &mut String)
    ensures
        final(out)@ == old(out)@ + texpr_dbg(e@),
    decreases e, 1nat,
{
    push_str(out, "TypedExpr { kind: ");
    match &e.kind {
        TypedExprKind::IntLit(v) => {
            push_str(out, "IntLit(");
            write_quoted(v, out);
            push_str(out, ")");
        },
        TypedExprKind::FloatLit(v) => {
            push_str(out, "FloatLit(");
            write_quoted(v, out);
            push_str(out, ")");
        },
        TypedExprKind::StrLit(v) => {
            push_str(out, "StrLit(");
            write_quoted(v, out);
            push_str(out, ")");
        },
        TypedExprKind::BoolLit(b) => {
            push_str(out, "BoolLit(");
            write_bool(*b, out);
            push_str(out, ")");
        },
        TypedExprKind::Ident(n) => {
            push_str(out, "Ident(");
            write_quoted(n, out);
            push_str(out, ")");
        },
        TypedExprKind::Binary { left, op, right } => {
            push_str(out, "Binary { left: ");
            write_texpr_dbg(&**left, out);
            push_str(out, ", op: ");
            push_str(out, binop_word(*op));
            push_str(out, ", right: ");
            write_texpr_dbg(&**right, out);
            push_str(out, " }");
        },
        TypedExprKind::Unary { op, expr } => {
            push_str(out, "Unary { op: ");
            push_str(out, unop_word(*op));
            push_str(out, ", expr: ");
            write_texpr_dbg(&**expr, out);
            push_str(out, " }");
        },
        TypedExprKind::Call { func_name, args } => {
            push_str(out, "Call { func_name: ");
            write_quoted(func_name, out);
            push_str(out, ", args: [");
            write_texprs_dbg(args, out);
            push_str(out, "] }");
        },
        TypedExprKind::Index { array, index } => {
            push_str(out, "Index { array: ");
            write_texpr_dbg(&**array, out);
            push_str(out, ", index: ");
            write_texpr_dbg(&**index, out);
            push_str(out, " }");
        },
        TypedExprKind::FieldAccess { obj, field } => {
            push_str(out, "FieldAccess { obj: ");
            write_texpr_dbg(&**obj, out);
            push_str(out, ", field: ");
            write_quoted(field, out);
            push_str(out, " }");
        },
        TypedExprKind::ArrayLit(v) => {
            push_str(out, "ArrayLit([");
            write_texprs_dbg(v, out);
            push_str(out, "])");
        },
        TypedExprKind::StructLit { name, fields } => {
            push_str(out, "StructLit { name: ");
            write_quoted(name, out);
            push_str(out, ", fields: [");
            write_tfields_dbg(fields, out);
            push_str(out, "] }");
        },
    }
    push_str(out, ", ty: ");
    write_kt_dbg(&e.ty, out);
    push_str(out, " }");
}

fn write_tbind(b: &(String, KangType, bool), out: &mut String)
    ensures
        final(out)@ == old(out)@ + tbind_dbg((b.0@, b.1@, b.2)),
{
    push_str(out, "(");
    write_quoted(&b.0, out);
    push_str(out, ", ");
    write_kt_dbg(&b.1, out);
    push_str(out, ", ");
    write_bool(b.2, out);
    push_str(out, ")");
}

fn write_tbinds_dbg(v: &Vec<(String, KangType, bool)>, out: &mut String)
    ensures
        final(out)@ == old(out)@ + tbinds_dbg(typed_bindings(v@)),
{
    let mut i: usize = 0;
    assert(typed_bindings(v@.take(0)) =~= Seq::<(Seq<char>, KT, bool)>::empty());
    while i < v.len()
        invariant
            i <= v@.len(),
            out@ == old(out)@ + tbinds_dbg(typed_bindings(v@.take(i as int))),
        decreases v@.len() - i,
    {
        let ghost x = typed_bindings(v@.take(i as int));
        let ghost b = (v@[i as int].0@, v@[i as int].1@, v@[i as int].2);
        assert(typed_bindings(v@.take(i as int + 1)) =~= x.push(b));
        assert(x.push(b).drop_last() =~= x);
        assert(x.len() == i);
        if i > 0 {
            push_str(out, ", ");
        }
        write_tbind(&v[i], out);
        proof {
            if i == 0 {
                assert(x.len() == 0);
                assert(x.push(b)[0] == b);
            }
        }
        i += 1;
    }
    assert(v@.take(v@.len() as int) =~= v@);
}

#[verifier::loop_isolation(false)]
fn write_tstmts_dbg(v: &Vec<TypedStmt>, out: &mut String)
    ensures
        final(out)@ == old(out)@ + tstmts_dbg(tsvs(v@)),
    decreases v, 0nat,
{
    let mut i: usize = 0;
    assert(v@.take(0) =~= Seq::<TypedStmt>::empty());
    while i < v.len()
        invariant
            i <= v@.len(),
            out@ == old(out)@ + tstmts_dbg(tsvs(v@.take(i as int))),
        decreases v@.len() - i,
    {
        proof {
            assert(decreases_to!(v => v@[i as int]));
            lemma_tsvs_take(v@, i as int);
            lemma_tsvs(v@.take(i as int));
            let x = tsvs(v@.take(i as int));
            assert(x.push(tsv(&v@[i as int])).drop_last() =~= x);
        }
        if i > 0 {
            push_str(out, ", ");
        }
        write_tstmt_dbg(&v[i], out);
        i += 1;
    }
    assert(v@.take(v@.len() as int) =~= v@);
}

fn write_tstmt_dbg(s: &TypedStmt, out: &mut String)
    ensures
        final(out)@ == old(out)@ + tstmt_dbg(s@),
    decreases s, 2nat,
{
    push_str(out, "TypedStmt { kind: ");
    write_tskind_dbg(s, out);
    push_str(out, " }");
}

#[verifier::rlimit(100)]
#[verifier::spinoff_prover]
fn write_tskind_dbg(s: &TypedStmt, out: &mut String)
    ensures
        final(out)@ == old(out)@ + tskind_dbg(s@),
    decreases s, 1nat,
{
    match &s.kind {
        TypedStmtKind::VarDecl { bindings, init } => {
            push_str(out, "VarDecl { bindings: [");
            write_tbinds_dbg(bindings, out);
            push_str(out, "], init: ");
            write_texpr_dbg(&**init, out);
            push_str(out, " }");
        },
        TypedStmtKind::Assign { lvalue, value } => {
            push_str(out, "Assign { lvalue: ");
            write_lvalue_dbg(lvalue, out);
            push_str(out, ", value: ");
            write_texpr_dbg(&**value, out);
            push_str(out, " }");
        },
        TypedStmtKind::Return { values } => {
            push_str(out, "Return { values: [");
            write_texprs_dbg(values, out);
            push_str(out, "] }");
        },
        TypedStmtKind::If { .. } => write_tif_dbg(s, out),
        TypedStmtKind::For { .. } => write_tfor_dbg(s, out),
        TypedStmtKind::Expr(e) => {
            push_str(out, "Expr(");
            write_texpr_dbg(&**e, out);
            push_str(out, ")");
        },
        TypedStmtKind::Block(v) => {
            push_str(out, "Block([");
            write_tstmts_dbg(v, out);
            push_str(out, "])");
        },
    }
}

#[verifier::rlimit(100)]
#[verifier::spinoff_prover]
fn write_tif_dbg(s: &TypedStmt, out: &mut String)
    requires
        s.kind is If,
    ensures
        final(out)@ == old(out)@ + tskind_dbg(s@),
    decreases s, 0nat,
{
    match &s.kind {
        TypedStmtKind::If { condition, then_branch, else_branch } => {
            push_str(out, "If { condition: ");
            write_texpr_dbg(&**condition, out);
            push_str(out, ", then_branch: ");
            write_tstmt_dbg(&**then_branch, out);
            push_str(out, ", else_branch: ");
            match else_branch {
                Some(x) => {
                    push_str(out, "Some(");
                    write_tstmt_dbg(&**x, out);
                    push_str(out, ")");
                },
                None => push_str(out, "None"),
            }
            push_str(out, " }");
        },
        _ => {},
    }
}

#[verifier::rlimit(100)]
#[verifier::spinoff_prover]
fn write_tfor_dbg(s: &TypedStmt, out: &mut String)
    requires
        s.kind is For,
    ensures
        final(out)@ == old(out)@ + tskind_dbg(s@),
    decreases s, 0nat,
{
    match &s.kind {
        TypedStmtKind::For { var_name, var_type, start, end, step_lvalue, step_expr, body } => {
            push_str(out, "For { var_name: ");
            write_quoted(var_name, out);
            push_str(out, ", var_type: ");
            write_kt_dbg(var_type, out);
            push_str(out, ", start: ");
            write_texpr_dbg(&**start, out);
            push_str(out, ", end: ");
            write_texpr_dbg(&**end, out);
            push_str(out, ", step_lvalue: ");
            write_lvalue_dbg(step_lvalue, out);
            push_str(out, ", step_expr: ");
            write_texpr_dbg(&**step_expr, out);
            push_str(out, ", body: ");
            write_tstmt_dbg(&**body, out);
            push_str(out, " }");
        },
        _ => {},
    }
}

fn write_ttop_dbg(t: &TypedTopLevel, out: &mut String)
    ensures
        final(out)@ == old(out)@ + ttop_dbg(t@),
{
    match t {
        TypedTopLevel::Struct(d) => {
            push_str(out, "Struct(");
            write_struct_dbg(d, out);
            push_str(out, ")");
        },
        TypedTopLevel::Func(f) => {
            push_str(out, "Func(");
            write_tfunc_dbg(f, out);
            push_str(out, ")");
        },
    }
}

fn write_tfunc_dbg(f: &TypedFuncDef, out: &mut String)
    ensures
        final(out)@ == old(out)@ + tfunc_dbg(f@),
{
    push_str(out, "TypedFuncDef { name: ");
    write_quoted(&f.name, out);
    push_str(out, ", params: [");
    let v = &f.params;
    let ghost start = out@;
    let mut i: usize = 0;
    assert(typed_params(v@.take(0)) =~= Seq::<(Seq<char>, KT)>::empty());
    while i < v.len()
        invariant
            i <= v@.len(),
            out@ == start + tparams_dbg(typed_params(v@.take(i as int))),
        decreases v@.len() - i,
    {
        let ghost x = typed_params(v@.take(i as int));
        assert(typed_params(v@.take(i as int + 1)) =~= x.push((v@[i as int].0@, v@[i as int].1@)));
        assert(x.push((v@[i as int].0@, v@[i as int].1@)).drop_last() =~= x);
        if i > 0 {
            push_str(out, ", (");
        } else {
            push_str(out, "(");
        }
        write_quoted(&v[i].0, out);
        push_str(out, ", ");
        write_kt_dbg(&v[i].1, out);
        push_str(out, ")");
        proof {
            if i == 0 {
                assert(x.len() == 0);
                assert(x.push((v@[0].0@, v@[0].1@))[0] == (v@[0].0@, v@[0].1@));
            }
        }
        i += 1;
    }
    assert(v@.take(v@.len() as int) =~= v@);
    push_str(out, "], return_type: ");
    write_kt_dbg(&f.return_type, out);
    push_str(out, ", body: [");
    write_tstmts_dbg(&f.body, out);
    push_str(out, "] }");
}

impl TypedProgram {
    /// The debug text of the program (see `typed_debug`): what the typed-AST
    /// stage prints.
    pub fn to_debug_text(&self) -> (r: String)
        ensures
            r@ == typed_debug(self@),
    {
        let mut out = String::new();
        push_str(&mut out, "TypedProgram { items: [");
        let ghost p = self@;
        let mut i: usize = 0;
        assert(p.take(0) =~= Seq::<TTopV>::empty());
        while i < self.items.len()
            invariant
                i <= self.items@.len(),
                p == self@,
                out@ == "TypedProgram { items: ["@ + ttops_dbg(p.take(i as int)),
            decreases self.items@.len() - i,
        {
            assert(p.take(i as int + 1).drop_last() =~= p.take(i as int));
            if i > 0 {
                push_str(&mut out, ", ");
            }
            write_ttop_dbg(&self.items[i], &mut out);
            proof {
                let x = p.take(i as int);
                assert(x.len() == i);
                if i == 0 {
                    assert(p.take(1)[0] == p[0]);
                }
                assert(p.take(i as int + 1).last() == p[i as int]);
                assert(p[i as int] == self.items@[i as int]@);
            }
            i += 1;
        }
        assert(p.take(p.len() as int) =~= p);
        push_str(&mut out, "] }");
        out
    }
}

} // verus!
