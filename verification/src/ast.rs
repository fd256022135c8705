//! The syntax tree shared by the parser, the checker and the code generator.
//!
//! Every expression, left value and statement carries a byte span for
//! diagnostics: a literal or a name the span of its own token, a node read
//! from several tokens the span of the token where its reading ended (the
//! one after it).  Two trees are equal (`==`) when they agree in everything but
//! their spans.  `to_sexpr` renders a node as the S-expression text the
//! `--emit=ast` output shows.

use std::ops::Range;
use vstd::prelude::*;
use crate::text::{debug_quoted, debug_str, push_str, string_of, same_text};

verus! {

// ── Types ───────────────────────────────────────────────────────────────

#[derive(Debug, Clone)]
pub enum BaseType {
    I32,
    F64,
    Str,
    Bool,
    Void,
    UserDef(String),
}

#[derive(Debug, Clone)]
pub enum Type {
    Base(BaseType),
    Array(BaseType),
}

#[derive(Debug, Clone)]
pub enum ReturnType {
    Single(Type),
    Pair(Type, Type),
}

/// A base type as a value.
pub enum BaseTypeV {
    I32,
    F64,
    Str,
    Bool,
    Void,
    UserDef(Seq<char>),
}

/// A type as a value.
pub enum TypeV {
    Base(BaseTypeV),
    Array(BaseTypeV),
}

/// A return type as a value.
pub enum ReturnTypeV {
    Single(TypeV),
    Pair(TypeV, TypeV),
}

impl View for BaseType {
    type V = BaseTypeV;

    open spec fn view(&self) -> BaseTypeV {
        match self {
            BaseType::I32 => BaseTypeV::I32,
            BaseType::F64 => BaseTypeV::F64,
            BaseType::Str => BaseTypeV::Str,
            BaseType::Bool => BaseTypeV::Bool,
            BaseType::Void => BaseTypeV::Void,
            BaseType::UserDef(n) => BaseTypeV::UserDef(n@),
        }
    }
}

impl View for Type {
    type V = TypeV;

    open spec fn view(&self) -> TypeV {
        match self {
            Type::Base(b) => TypeV::Base(b@),
            Type::Array(b) => TypeV::Array(b@),
        }
    }
}

impl View for ReturnType {
    type V = ReturnTypeV;

    open spec fn view(&self) -> ReturnTypeV {
        match self {
            ReturnType::Single(t) => ReturnTypeV::Single(t@),
            ReturnType::Pair(a, b) => ReturnTypeV::Pair(a@, b@),
        }
    }
}

// ── Operators ───────────────────────────────────────────────────────────

#[derive(Debug, Clone, Copy, PartialEq, Eq, Structural)]
pub enum BinOp {
    Or,
    And,
    Eq,
    Neq,
    Lt,
    Le,
    Gt,
    Ge,
    Add,
    Sub,
    Mul,
    Div,
}

#[derive(Debug, Clone, Copy, PartialEq, Eq, Structural)]
pub enum UnaryOp {
    Neg,
    Not,
}

// ── Expressions, left values, statements ────────────────────────────────

#[derive(Debug)]
pub enum Expr {
    Binary { left: Box<Expr>, op: BinOp, right: Box<Expr>, span: Range<usize> },
    Unary { op: UnaryOp, expr: Box<Expr>, span: Range<usize> },
    Call { func: Box<Expr>, args: Vec<Expr>, span: Range<usize> },
    Index { array: Box<Expr>, index: Box<Expr>, span: Range<usize> },
    FieldAccess { obj: Box<Expr>, field: String, span: Range<usize> },
    IntLit(String, Range<usize>),
    FloatLit(String, Range<usize>),
    StrLit(String, Range<usize>),
    BoolLit(bool, Range<usize>),
    ArrayLit(Vec<Expr>, Range<usize>),
    StructLit { name: String, fields: Vec<(String, Expr)>, span: Range<usize> },
    Ident(String, Range<usize>),
}

#[derive(Debug)]
pub enum LValue {
    Ident(String, Range<usize>),
    Index { array: Box<Expr>, index: Box<Expr>, span: Range<usize> },
    FieldAccess { obj: Box<Expr>, field: String, span: Range<usize> },
}

#[derive(Debug, Clone)]
pub enum VarBinding {
    Named { name: String, ty: Type },
    Discard,
}

#[derive(Debug)]
pub enum Stmt {
    VarDecl { bindings: Vec<VarBinding>, init: Box<Expr>, span: Range<usize> },
    Assign { lvalue: LValue, value: Box<Expr>, span: Range<usize> },
    Return { values: Vec<Expr>, span: Range<usize> },
    If {
        condition: Box<Expr>,
        then_branch: Box<Stmt>,
        else_branch: Option<Box<Stmt>>,
        span: Range<usize>,
    },
    For {
        var_name: String,
        var_type: Type,
        start: Box<Expr>,
        end: Box<Expr>,
        step_lvalue: LValue,
        step_expr: Box<Expr>,
        body: Box<Stmt>,
        span: Range<usize>,
    },
    Expr(Box<Expr>, Range<usize>),
    Block(Vec<Stmt>, Range<usize>),
}

/// A span as its two bounds.
pub type SpanV = (usize, usize);

pub open spec fn span_v(r: Range<usize>) -> SpanV {
    (r.start, r.end)
}

/// An expression as a value.
pub enum ExprV {
    Binary(Box<ExprV>, BinOp, Box<ExprV>, SpanV),
    Unary(UnaryOp, Box<ExprV>, SpanV),
    Call(Box<ExprV>, Seq<ExprV>, SpanV),
    Index(Box<ExprV>, Box<ExprV>, SpanV),
    Field(Box<ExprV>, Seq<char>, SpanV),
    IntLit(Seq<char>, SpanV),
    FloatLit(Seq<char>, SpanV),
    StrLit(Seq<char>, SpanV),
    BoolLit(bool, SpanV),
    ArrayLit(Seq<ExprV>, SpanV),
    StructLit(Seq<char>, Seq<(Seq<char>, ExprV)>, SpanV),
    Ident(Seq<char>, SpanV),
}

/// A left value as a value.
pub enum LValueV {
    Ident(Seq<char>, SpanV),
    Index(ExprV, ExprV, SpanV),
    Field(ExprV, Seq<char>, SpanV),
}

/// A binding of a `var` declaration as a value.
pub enum VarBindingV {
    Named(Seq<char>, TypeV),
    Discard,
}

/// A statement as a value.
pub enum StmtV {
    VarDecl(Seq<VarBindingV>, ExprV, SpanV),
    Assign(LValueV, ExprV, SpanV),
    Return(Seq<ExprV>, SpanV),
    If(ExprV, Box<StmtV>, Option<Box<StmtV>>, SpanV),
    For(Seq<char>, TypeV, ExprV, ExprV, LValueV, ExprV, Box<StmtV>, SpanV),
    Expr(ExprV, SpanV),
    Block(Seq<StmtV>, SpanV),
}

pub open spec fn ev(e: &Expr) -> ExprV
    decreases e,
{
    match e {
        Expr::Binary { left, op, right, span } => ExprV::Binary(
            Box::new(ev(&**left)),
            *op,
            Box::new(ev(&**right)),
            span_v(*span),
        ),
        Expr::Unary { op, expr, span } => ExprV::Unary(*op, Box::new(ev(&**expr)), span_v(*span)),
        Expr::Call { func, args, span } => ExprV::Call(
            Box::new(ev(&**func)),
            evs(args@),
            span_v(*span),
        ),
        Expr::Index { array, index, span } => ExprV::Index(
            Box::new(ev(&**array)),
            Box::new(ev(&**index)),
            span_v(*span),
        ),
        Expr::FieldAccess { obj, field, span } => ExprV::Field(
            Box::new(ev(&**obj)),
            field@,
            span_v(*span),
        ),
        Expr::IntLit(v, span) => ExprV::IntLit(v@, span_v(*span)),
        Expr::FloatLit(v, span) => ExprV::FloatLit(v@, span_v(*span)),
        Expr::StrLit(v, span) => ExprV::StrLit(v@, span_v(*span)),
        Expr::BoolLit(v, span) => ExprV::BoolLit(*v, span_v(*span)),
        Expr::ArrayLit(v, span) => ExprV::ArrayLit(evs(v@), span_v(*span)),
        Expr::StructLit { name, fields, span } => ExprV::StructLit(
            name@,
            evf(fields@),
            span_v(*span),
        ),
        Expr::Ident(n, span) => ExprV::Ident(n@, span_v(*span)),
    }
}

pub open spec fn evs(v: Seq<Expr>) -> Seq<ExprV>
    decreases v,
{
    if v.len() == 0 {
        Seq::empty()
    } else {
        evs(v.drop_last()).push(ev(&v.last()))
    }
}

pub open spec fn evf(v: Seq<(String, Expr)>) -> Seq<(Seq<char>, ExprV)>
    decreases v,
{
    if v.len() == 0 {
        Seq::empty()
    } else {
        evf(v.drop_last()).push((v.last().0@, ev(&v.last().1)))
    }
}

pub open spec fn lv_v(l: &LValue) -> LValueV {
    match l {
        LValue::Ident(n, span) => LValueV::Ident(n@, span_v(*span)),
        LValue::Index { array, index, span } => LValueV::Index(ev(&**array), ev(&**index), span_v(*span)),
        LValue::FieldAccess { obj, field, span } => LValueV::Field(ev(&**obj), field@, span_v(*span)),
    }
}

pub open spec fn vb_v(b: VarBinding) -> VarBindingV {
    match b {
        VarBinding::Named { name, ty } => VarBindingV::Named(name@, ty@),
        VarBinding::Discard => VarBindingV::Discard,
    }
}

pub open spec fn vbs(v: Seq<VarBinding>) -> Seq<VarBindingV> {
    v.map_values(|b: VarBinding| vb_v(b))
}

pub open spec fn sv(s: &Stmt) -> StmtV
    decreases s,
{
    match s {
        Stmt::VarDecl { bindings, init, span } => StmtV::VarDecl(vbs(bindings@), ev(&**init), span_v(*span)),
        Stmt::Assign { lvalue, value, span } => StmtV::Assign(lv_v(lvalue), ev(&**value), span_v(*span)),
        Stmt::Return { values, span } => StmtV::Return(evs(values@), span_v(*span)),
        Stmt::If { condition, then_branch, else_branch, span } => StmtV::If(
            ev(&**condition),
            Box::new(sv(&**then_branch)),
            match else_branch {
                Some(e) => Some(Box::new(sv(&**e))),
                None => None,
            },
            span_v(*span),
        ),
        Stmt::For { var_name, var_type, start, end, step_lvalue, step_expr, body, span } => StmtV::For(
            var_name@,
            var_type@,
            ev(&**start),
            ev(&**end),
            lv_v(step_lvalue),
            ev(&**step_expr),
            Box::new(sv(&**body)),
            span_v(*span),
        ),
        Stmt::Expr(e, span) => StmtV::Expr(ev(&**e), span_v(*span)),
        Stmt::Block(v, span) => StmtV::Block(svs(v@), span_v(*span)),
    }
}

pub open spec fn svs(v: Seq<Stmt>) -> Seq<StmtV>
    decreases v,
{
    if v.len() == 0 {
        Seq::empty()
    } else {
        svs(v.drop_last()).push(sv(&v.last()))
    }
}

impl View for Expr {
    type V = ExprV;

    open spec fn view(&self) -> ExprV {
        ev(self)
    }
}

impl View for LValue {
    type V = LValueV;

    open spec fn view(&self) -> LValueV {
        lv_v(self)
    }
}

impl View for VarBinding {
    type V = VarBindingV;

    open spec fn view(&self) -> VarBindingV {
        vb_v(*self)
    }
}

impl View for Stmt {
    type V = StmtV;

    open spec fn view(&self) -> StmtV {
        sv(self)
    }
}

pub proof fn lemma_evs(v: Seq<Expr>)
    ensures
        evs(v).len() == v.len(),
        forall|k: int| 0 <= k < v.len() ==> #[trigger] evs(v)[k] == ev(&v[k]),
    decreases v.len(),
{
    if v.len() > 0 {
        lemma_evs(v.drop_last());
    }
}

pub proof fn lemma_evf(v: Seq<(String, Expr)>)
    ensures
        evf(v).len() == v.len(),
        forall|k: int| 0 <= k < v.len() ==> #[trigger] evf(v)[k] == (v[k].0@, ev(&v[k].1)),
    decreases v.len(),
{
    if v.len() > 0 {
        lemma_evf(v.drop_last());
    }
}

pub proof fn lemma_svs(v: Seq<Stmt>)
    ensures
        svs(v).len() == v.len(),
        forall|k: int| 0 <= k < v.len() ==> #[trigger] svs(v)[k] == sv(&v[k]),
    decreases v.len(),
{
    if v.len() > 0 {
        lemma_svs(v.drop_last());
    }
}

// ── Equality up to spans ────────────────────────────────────────────────

/// Two expressions agree in everything but their spans.
pub open spec fn same_expr(a: ExprV, b: ExprV) -> bool
    decreases a,
{
    match (a, b) {
        (ExprV::Binary(l1, o1, r1, _), ExprV::Binary(l2, o2, r2, _)) =>
            same_expr(*l1, *l2) && o1 == o2 && same_expr(*r1, *r2),
        (ExprV::Unary(o1, e1, _), ExprV::Unary(o2, e2, _)) => o1 == o2 && same_expr(*e1, *e2),
        (ExprV::Call(f1, a1, _), ExprV::Call(f2, a2, _)) => same_expr(*f1, *f2) && a1.len() == a2.len()
            && forall|i: int| 0 <= i < a1.len() ==> same_expr(#[trigger] a1[i], a2[i]),
        (ExprV::Index(a1, i1, _), ExprV::Index(a2, i2, _)) => same_expr(*a1, *a2) && same_expr(*i1, *i2),
        (ExprV::Field(o1, f1, _), ExprV::Field(o2, f2, _)) => same_expr(*o1, *o2) && f1 == f2,
        (ExprV::IntLit(v1, _), ExprV::IntLit(v2, _)) => v1 == v2,
        (ExprV::FloatLit(v1, _), ExprV::FloatLit(v2, _)) => v1 == v2,
        (ExprV::StrLit(v1, _), ExprV::StrLit(v2, _)) => v1 == v2,
        (ExprV::BoolLit(v1, _), ExprV::BoolLit(v2, _)) => v1 == v2,
        (ExprV::ArrayLit(a1, _), ExprV::ArrayLit(a2, _)) => a1.len() == a2.len()
            && forall|i: int| 0 <= i < a1.len() ==> same_expr(#[trigger] a1[i], a2[i]),
        (ExprV::StructLit(n1, f1, _), ExprV::StructLit(n2, f2, _)) => n1 == n2 && f1.len() == f2.len()
            && forall|i: int| 0 <= i < f1.len() ==> (#[trigger] f1[i]).0 == f2[i].0 && same_expr(f1[i].1, f2[i].1),
        (ExprV::Ident(n1, _), ExprV::Ident(n2, _)) => n1 == n2,
        _ => false,
    }
}

/// Two left values agree in everything but their spans.
pub open spec fn same_lvalue(a: LValueV, b: LValueV) -> bool {
    match (a, b) {
        (LValueV::Ident(n1, _), LValueV::Ident(n2, _)) => n1 == n2,
        (LValueV::Index(a1, i1, _), LValueV::Index(a2, i2, _)) => same_expr(a1, a2) && same_expr(i1, i2),
        (LValueV::Field(o1, f1, _), LValueV::Field(o2, f2, _)) => same_expr(o1, o2) && f1 == f2,
        _ => false,
    }
}

/// Two statements agree in everything but their spans.
pub open spec fn same_stmt(a: StmtV, b: StmtV) -> bool
    decreases a,
{
    match (a, b) {
        (StmtV::VarDecl(b1, i1, _), StmtV::VarDecl(b2, i2, _)) => b1 == b2 && same_expr(i1, i2),
        (StmtV::Assign(l1, v1, _), StmtV::Assign(l2, v2, _)) => same_lvalue(l1, l2) && same_expr(v1, v2),
        (StmtV::Return(v1, _), StmtV::Return(v2, _)) => v1.len() == v2.len()
            && forall|i: int| 0 <= i < v1.len() ==> same_expr(#[trigger] v1[i], v2[i]),
        (StmtV::If(c1, t1, e1, _), StmtV::If(c2, t2, e2, _)) => same_expr(c1, c2) && same_stmt(*t1, *t2)
            && match (e1, e2) {
                (Some(x), Some(y)) => same_stmt(*x, *y),
                (None, None) => true,
                _ => false,
            },
        (StmtV::For(n1, t1, s1, e1, l1, x1, b1, _), StmtV::For(n2, t2, s2, e2, l2, x2, b2, _)) =>
            n1 == n2 && t1 == t2 && same_expr(s1, s2) && same_expr(e1, e2) && same_lvalue(l1, l2)
                && same_expr(x1, x2) && same_stmt(*b1, *b2),
        (StmtV::Expr(e1, _), StmtV::Expr(e2, _)) => same_expr(e1, e2),
        (StmtV::Block(s1, _), StmtV::Block(s2, _)) => s1.len() == s2.len()
            && forall|i: int| 0 <= i < s1.len() ==> same_stmt(#[trigger] s1[i], s2[i]),
        _ => false,
    }
}

fn same_base(a: &BaseType, b: &BaseType) -> (r: bool)
    ensures
        r == (a@ == b@),
{
    match (a, b) {
        (BaseType::I32, BaseType::I32) => true,
        (BaseType::F64, BaseType::F64) => true,
        (BaseType::Str, BaseType::Str) => true,
        (BaseType::Bool, BaseType::Bool) => true,
        (BaseType::Void, BaseType::Void) => true,
        (BaseType::UserDef(x), BaseType::UserDef(y)) => same_text(x, y),
        _ => false,
    }
}

fn same_type(a: &Type, b: &Type) -> (r: bool)
    ensures
        r == (a@ == b@),
{
    match (a, b) {
        (Type::Base(x), Type::Base(y)) => same_base(x, y),
        (Type::Array(x), Type::Array(y)) => same_base(x, y),
        _ => false,
    }
}

fn same_return(a: &ReturnType, b: &ReturnType) -> (r: bool)
    ensures
        r == (a@ == b@),
{
    match (a, b) {
        (ReturnType::Single(x), ReturnType::Single(y)) => same_type(x, y),
        (ReturnType::Pair(x1, x2), ReturnType::Pair(y1, y2)) => same_type(x1, y1) && same_type(x2, y2),
        _ => false,
    }
}

fn same_binding(a: &VarBinding, b: &VarBinding) -> (r: bool)
    ensures
        r == (a@ == b@),
{
    match (a, b) {
        (VarBinding::Named { name: n1, ty: t1 }, VarBinding::Named { name: n2, ty: t2 }) =>
            same_text(n1, n2) && same_type(t1, t2),
        (VarBinding::Discard, VarBinding::Discard) => true,
        _ => false,
    }
}

fn same_bindings(a: &Vec<VarBinding>, b: &Vec<VarBinding>) -> (r: bool)
    ensures
        r == (vbs(a@) == vbs(b@)),
{
    if a.len() != b.len() {
        assert(vbs(a@).len() != vbs(b@).len());
        return false;
    }
    let mut i: usize = 0;
    while i < a.len()
        invariant
            i <= a@.len() == b@.len(),
            forall|k: int| 0 <= k < i ==> vbs(a@)[k] == vbs(b@)[k],
        decreases a@.len() - i,
    {
        if !same_binding(&a[i], &b[i]) {
            assert(vbs(a@)[i as int] != vbs(b@)[i as int]);
            return false;
        }
        i += 1;
    }
    assert(vbs(a@) =~= vbs(b@));
    true
}

#[verifier::loop_isolation(false)]
fn same_expr_x(a: &Expr, b: &Expr) -> (r: bool)
    ensures
        r == same_expr(a@, b@),
    decreases a,
{
    match (a, b) {
        (Expr::Binary { left: l1, op: o1, right: r1, .. }, Expr::Binary { left: l2, op: o2, right: r2, .. }) =>
            same_expr_x(&**l1, &**l2) && *o1 == *o2 && same_expr_x(&**r1, &**r2),
        (Expr::Unary { op: o1, expr: e1, .. }, Expr::Unary { op: o2, expr: e2, .. }) =>
            *o1 == *o2 && same_expr_x(&**e1, &**e2),
        (Expr::Call { func: f1, args: a1, .. }, Expr::Call { func: f2, args: a2, .. }) => {
            if !same_expr_x(&**f1, &**f2) {
                return false;
            }
            proof {
                lemma_evs(a1@);
                lemma_evs(a2@);
            }
            if a1.len() != a2.len() {
                return false;
            }
            let mut i: usize = 0;
            while i < a1.len()
                invariant
                    i <= a1@.len() == a2@.len(),
                    forall|k: int| 0 <= k < i ==> same_expr(#[trigger] evs(a1@)[k], evs(a2@)[k]),
                decreases a1@.len() - i,
            {
                proof {
                    assert(decreases_to!(a => a1@[i as int]));
                }
                let s = same_expr_x(&a1[i], &a2[i]);
                assert(evs(a1@)[i as int] == ev(&a1@[i as int]) && evs(a2@)[i as int] == ev(&a2@[i as int]));
                if !s {
                    return false;
                }
                i += 1;
            }
            true
        },
        (Expr::Index { array: a1, index: i1, .. }, Expr::Index { array: a2, index: i2, .. }) =>
            same_expr_x(&**a1, &**a2) && same_expr_x(&**i1, &**i2),
        (Expr::FieldAccess { obj: o1, field: f1, .. }, Expr::FieldAccess { obj: o2, field: f2, .. }) =>
            same_expr_x(&**o1, &**o2) && same_text(f1, f2),
        (Expr::IntLit(v1, _), Expr::IntLit(v2, _)) => same_text(v1, v2),
        (Expr::FloatLit(v1, _), Expr::FloatLit(v2, _)) => same_text(v1, v2),
        (Expr::StrLit(v1, _), Expr::StrLit(v2, _)) => same_text(v1, v2),
        (Expr::BoolLit(v1, _), Expr::BoolLit(v2, _)) => *v1 == *v2,
        (Expr::ArrayLit(a1, _), Expr::ArrayLit(a2, _)) => {
            proof {
                lemma_evs(a1@);
                lemma_evs(a2@);
            }
            if a1.len() != a2.len() {
                return false;
            }
            let mut i: usize = 0;
            while i < a1.len()
                invariant
                    i <= a1@.len() == a2@.len(),
                    forall|k: int| 0 <= k < i ==> same_expr(#[trigger] evs(a1@)[k], evs(a2@)[k]),
                decreases a1@.len() - i,
            {
                proof {
                    assert(decreases_to!(a => a1@[i as int]));
                }
                let s = same_expr_x(&a1[i], &a2[i]);
                assert(evs(a1@)[i as int] == ev(&a1@[i as int]) && evs(a2@)[i as int] == ev(&a2@[i as int]));
                if !s {
                    return false;
                }
                i += 1;
            }
            true
        },
        (Expr::StructLit { name: n1, fields: f1, .. }, Expr::StructLit { name: n2, fields: f2, .. }) => {
            if !same_text(n1, n2) {
                return false;
            }
            proof {
                lemma_evf(f1@);
                lemma_evf(f2@);
            }
            if f1.len() != f2.len() {
                return false;
            }
            let mut i: usize = 0;
            while i < f1.len()
                invariant
                    i <= f1@.len() == f2@.len(),
                    forall|k: int| 0 <= k < i ==> (#[trigger] evf(f1@)[k]).0 == evf(f2@)[k].0
                        && same_expr(evf(f1@)[k].1, evf(f2@)[k].1),
                decreases f1@.len() - i,
            {
                proof {
                    assert(decreases_to!(a => f1@[i as int].1));
                }
                let s1 = same_text(&f1[i].0, &f2[i].0);
                let s2 = same_expr_x(&f1[i].1, &f2[i].1);
                assert(evf(f1@)[i as int] == (f1@[i as int].0@, ev(&f1@[i as int].1)));
                assert(evf(f2@)[i as int] == (f2@[i as int].0@, ev(&f2@[i as int].1)));
                if !(s1 && s2) {
                    return false;
                }
                i += 1;
            }
            true
        },
        (Expr::Ident(n1, _), Expr::Ident(n2, _)) => same_text(n1, n2),
        _ => false,
    }
}

fn same_lvalue_x(a: &LValue, b: &LValue) -> (r: bool)
    ensures
        r == same_lvalue(a@, b@),
{
    match (a, b) {
        (LValue::Ident(n1, _), LValue::Ident(n2, _)) => same_text(n1, n2),
        (LValue::Index { array: a1, index: i1, .. }, LValue::Index { array: a2, index: i2, .. }) =>
            same_expr_x(&**a1, &**a2) && same_expr_x(&**i1, &**i2),
        (LValue::FieldAccess { obj: o1, field: f1, .. }, LValue::FieldAccess { obj: o2, field: f2, .. }) =>
            same_expr_x(&**o1, &**o2) && same_text(f1, f2),
        _ => false,
    }
}

fn same_exprs_x(a: &Vec<Expr>, b: &Vec<Expr>) -> (r: bool)
    ensures
        r == (evs(a@).len() == evs(b@).len() && forall|i: int| 0 <= i < evs(a@).len() ==> same_expr(
            #[trigger] evs(a@)[i],
            evs(b@)[i],
        )),
{
    proof {
        lemma_evs(a@);
        lemma_evs(b@);
    }
    if a.len() != b.len() {
        return false;
    }
    let mut i: usize = 0;
    while i < a.len()
        invariant
            i <= a@.len() == b@.len(),
            evs(a@).len() == a@.len(),
            evs(b@).len() == b@.len(),
            forall|k: int| 0 <= k < a@.len() ==> #[trigger] evs(a@)[k] == ev(&a@[k]),
            forall|k: int| 0 <= k < b@.len() ==> #[trigger] evs(b@)[k] == ev(&b@[k]),
            forall|k: int| 0 <= k < i ==> same_expr(#[trigger] evs(a@)[k], evs(b@)[k]),
        decreases a@.len() - i,
    {
        let s = same_expr_x(&a[i], &b[i]);
        assert(evs(a@)[i as int] == ev(&a@[i as int]) && evs(b@)[i as int] == ev(&b@[i as int]));
        if !s {
            return false;
        }
        i += 1;
    }
    true
}

#[verifier::loop_isolation(false)]
fn same_stmt_x(a: &Stmt, b: &Stmt) -> (r: bool)
    ensures
        r == same_stmt(a@, b@),
    decreases a,
{
    match (a, b) {
        (Stmt::VarDecl { bindings: b1, init: i1, .. }, Stmt::VarDecl { bindings: b2, init: i2, .. }) =>
            same_bindings(b1, b2) && same_expr_x(&**i1, &**i2),
        (Stmt::Assign { lvalue: l1, value: v1, .. }, Stmt::Assign { lvalue: l2, value: v2, .. }) =>
            same_lvalue_x(l1, l2) && same_expr_x(&**v1, &**v2),
        (Stmt::Return { values: v1, .. }, Stmt::Return { values: v2, .. }) => same_exprs_x(v1, v2),
        (
            Stmt::If { condition: c1, then_branch: t1, else_branch: e1, .. },
            Stmt::If { condition: c2, then_branch: t2, else_branch: e2, .. },
        ) => {
            if !same_expr_x(&**c1, &**c2) {
                return false;
            }
            if !same_stmt_x(&**t1, &**t2) {
                return false;
            }
            match (e1, e2) {
                (Some(x), Some(y)) => same_stmt_x(&**x, &**y),
                (None, None) => true,
                _ => false,
            }
        },
        (
            Stmt::For { var_name: n1, var_type: t1, start: s1, end: d1, step_lvalue: l1, step_expr: x1, body: b1, .. },
            Stmt::For { var_name: n2, var_type: t2, start: s2, end: d2, step_lvalue: l2, step_expr: x2, body: b2, .. },
        ) => same_text(n1, n2) && same_type(t1, t2) && same_expr_x(&**s1, &**s2) && same_expr_x(&**d1, &**d2)
            && same_lvalue_x(l1, l2) && same_expr_x(&**x1, &**x2) && same_stmt_x(&**b1, &**b2),
        (Stmt::Expr(e1, _), Stmt::Expr(e2, _)) => same_expr_x(&**e1, &**e2),
        (Stmt::Block(s1, _), Stmt::Block(s2, _)) => {
            proof {
                lemma_svs(s1@);
                lemma_svs(s2@);
            }
            if s1.len() != s2.len() {
                return false;
            }
            let mut i: usize = 0;
            while i < s1.len()
                invariant
                    i <= s1@.len() == s2@.len(),
                    forall|k: int| 0 <= k < i ==> same_stmt(#[trigger] svs(s1@)[k], svs(s2@)[k]),
                decreases s1@.len() - i,
            {
                proof {
                    assert(decreases_to!(a => s1@[i as int]));
                }
                let s = same_stmt_x(&s1[i], &s2[i]);
                assert(svs(s1@)[i as int] == sv(&s1@[i as int]) && svs(s2@)[i as int] == sv(&s2@[i as int]));
                if !s {
                    return false;
                }
                i += 1;
            }
            true
        },
        _ => false,
    }
}

fn clone_exprs(v: &Vec<Expr>) -> (r: Vec<Expr>)
    ensures
        evs(r@) == evs(v@),
    decreases v, 0nat,
{
    proof {
        lemma_evs(v@);
    }
    let mut r: Vec<Expr> = Vec::new();
    let mut i: usize = 0;
    while i < v.len()
        invariant
            i <= v@.len(),
            r@.len() == i,
            evs(v@).len() == v@.len(),
            forall|k: int| 0 <= k < v@.len() ==> #[trigger] evs(v@)[k] == ev(&v@[k]),
            forall|k: int| 0 <= k < i ==> ev(&#[trigger] r@[k]) == ev(&v@[k]),
        decreases v@.len() - i,
    {
        proof {
            assert(decreases_to!(v => v@[i as int]));
        }
        let c = clone_expr(&v[i]);
        r.push(c);
        i += 1;
    }
    proof {
        lemma_evs(r@);
        assert(evs(r@) =~= evs(v@));
    }
    r
}

#[verifier::loop_isolation(false)]
fn clone_expr(e: &Expr) -> (r: Expr)
    ensures
        r@ == e@,
    decreases e, 1nat,
{
    match e {
        Expr::Binary { left, op, right, span } => Expr::Binary {
            left: Box::new(clone_expr(&**left)),
            op: *op,
            right: Box::new(clone_expr(&**right)),
            span: Range { start: span.start, end: span.end },
        },
        Expr::Unary { op, expr, span } => Expr::Unary {
            op: *op,
            expr: Box::new(clone_expr(&**expr)),
            span: Range { start: span.start, end: span.end },
        },
        Expr::Call { func, args, span } => Expr::Call {
            func: Box::new(clone_expr(&**func)),
            args: clone_exprs(args),
            span: Range { start: span.start, end: span.end },
        },
        Expr::Index { array, index, span } => Expr::Index {
            array: Box::new(clone_expr(&**array)),
            index: Box::new(clone_expr(&**index)),
            span: Range { start: span.start, end: span.end },
        },
        Expr::FieldAccess { obj, field, span } => Expr::FieldAccess {
            obj: Box::new(clone_expr(&**obj)),
            field: field.clone(),
            span: Range { start: span.start, end: span.end },
        },
        Expr::IntLit(v, span) => Expr::IntLit(v.clone(), Range { start: span.start, end: span.end }),
        Expr::FloatLit(v, span) => Expr::FloatLit(v.clone(), Range { start: span.start, end: span.end }),
        Expr::StrLit(v, span) => Expr::StrLit(v.clone(), Range { start: span.start, end: span.end }),
        Expr::BoolLit(v, span) => Expr::BoolLit(*v, Range { start: span.start, end: span.end }),
        Expr::ArrayLit(v, span) => Expr::ArrayLit(clone_exprs(v), Range { start: span.start, end: span.end }),
        Expr::StructLit { name, fields, span } => {
            proof {
                lemma_evf(fields@);
            }
            let mut r: Vec<(String, Expr)> = Vec::new();
            let mut i: usize = 0;
            while i < fields.len()
                invariant
                    i <= fields@.len(),
                    r@.len() == i,
                    forall|k: int| 0 <= k < i ==> (#[trigger] r@[k]).0@ == fields@[k].0@ && ev(&r@[k].1) == ev(&fields@[k].1),
                decreases fields@.len() - i,
            {
                proof {
                    assert(decreases_to!(e => fields@[i as int].1));
                }
                let c = clone_expr(&fields[i].1);
                let n = fields[i].0.clone();
                r.push((n, c));
                i += 1;
            }
            proof {
                lemma_evf(r@);
                assert(evf(r@) =~= evf(fields@));
            }
            Expr::StructLit { name: name.clone(), fields: r, span: Range { start: span.start, end: span.end } }
        },
        Expr::Ident(n, span) => Expr::Ident(n.clone(), Range { start: span.start, end: span.end }),
    }
}

/// A copy of a left value.
pub fn clone_lvalue(l: &LValue) -> (r: LValue)
    ensures
        r@ == l@,
{
    match l {
        LValue::Ident(n, span) => LValue::Ident(n.clone(), Range { start: span.start, end: span.end }),
        LValue::Index { array, index, span } => LValue::Index {
            array: Box::new(clone_expr(&**array)),
            index: Box::new(clone_expr(&**index)),
            span: Range { start: span.start, end: span.end },
        },
        LValue::FieldAccess { obj, field, span } => LValue::FieldAccess {
            obj: Box::new(clone_expr(&**obj)),
            field: field.clone(),
            span: Range { start: span.start, end: span.end },
        },
    }
}

impl Clone for LValue {
    fn clone(&self) -> (r: Self)
        ensures
            r@ == self@,
    {
        clone_lvalue(self)
    }
}

impl Clone for Expr {
    fn clone(&self) -> (r: Self)
        ensures
            r@ == self@,
    {
        clone_expr(self)
    }
}

fn clone_bindings(v: &Vec<VarBinding>) -> (r: Vec<VarBinding>)
    ensures
        vbs(r@) == vbs(v@),
{
    let mut r: Vec<VarBinding> = Vec::new();
    let mut i: usize = 0;
    while i < v.len()
        invariant
            i <= v@.len(),
            r@.len() == i,
            forall|k: int| 0 <= k < i ==> vb_v(#[trigger] r@[k]) == vb_v(v@[k]),
        decreases v@.len() - i,
    {
        let b = match &v[i] {
            VarBinding::Named { name, ty } => VarBinding::Named { name: name.clone(), ty: clone_type(ty) },
            VarBinding::Discard => VarBinding::Discard,
        };
        r.push(b);
        i += 1;
    }
    assert(vbs(r@) =~= vbs(v@));
    r
}

#[verifier::loop_isolation(false)]
fn clone_stmt(s: &Stmt) -> (r: Stmt)
    ensures
        r@ == s@,
    decreases s,
{
    match s {
        Stmt::VarDecl { bindings, init, span } => Stmt::VarDecl {
            bindings: clone_bindings(bindings),
            init: Box::new(clone_expr(&**init)),
            span: Range { start: span.start, end: span.end },
        },
        Stmt::Assign { lvalue, value, span } => Stmt::Assign {
            lvalue: lvalue.clone(),
            value: Box::new(clone_expr(&**value)),
            span: Range { start: span.start, end: span.end },
        },
        Stmt::Return { values, span } => Stmt::Return {
            values: clone_exprs(values),
            span: Range { start: span.start, end: span.end },
        },
        Stmt::If { condition, then_branch, else_branch, span } => Stmt::If {
            condition: Box::new(clone_expr(&**condition)),
            then_branch: Box::new(clone_stmt(&**then_branch)),
            else_branch: match else_branch {
                Some(e) => Some(Box::new(clone_stmt(&**e))),
                None => None,
            },
            span: Range { start: span.start, end: span.end },
        },
        Stmt::For { var_name, var_type, start, end, step_lvalue, step_expr, body, span } => Stmt::For {
            var_name: var_name.clone(),
            var_type: clone_type(var_type),
            start: Box::new(clone_expr(&**start)),
            end: Box::new(clone_expr(&**end)),
            step_lvalue: step_lvalue.clone(),
            step_expr: Box::new(clone_expr(&**step_expr)),
            body: Box::new(clone_stmt(&**body)),
            span: Range { start: span.start, end: span.end },
        },
        Stmt::Expr(e, span) => Stmt::Expr(Box::new(clone_expr(&**e)), Range { start: span.start, end: span.end }),
        Stmt::Block(v, span) => {
            let mut r: Vec<Stmt> = Vec::new();
            let mut i: usize = 0;
            while i < v.len()
                invariant
                    i <= v@.len(),
                    r@.len() == i,
                    forall|k: int| 0 <= k < i ==> sv(&#[trigger] r@[k]) == sv(&v@[k]),
                decreases v@.len() - i,
            {
                proof {
                    assert(decreases_to!(s => v@[i as int]));
                }
                r.push(clone_stmt(&v[i]));
                i += 1;
            }
            proof {
                lemma_svs(r@);
                lemma_svs(v@);
                assert(svs(r@) =~= svs(v@));
            }
            Stmt::Block(r, Range { start: span.start, end: span.end })
        },
    }
}

impl Clone for Stmt {
    fn clone(&self) -> (r: Self)
        ensures
            r@ == self@,
    {
        clone_stmt(self)
    }
}

impl PartialEq for BaseType {
    fn eq(&self, other: &Self) -> (r: bool) {
        same_base(self, other)
    }
}

impl vstd::std_specs::cmp::PartialEqSpecImpl for BaseType {
    open spec fn obeys_eq_spec() -> bool {
        true
    }

    open spec fn eq_spec(&self, other: &BaseType) -> bool {
        self@ == other@
    }
}

impl PartialEq for Type {
    fn eq(&self, other: &Self) -> (r: bool) {
        same_type(self, other)
    }
}

impl vstd::std_specs::cmp::PartialEqSpecImpl for Type {
    open spec fn obeys_eq_spec() -> bool {
        true
    }

    open spec fn eq_spec(&self, other: &Type) -> bool {
        self@ == other@
    }
}

impl PartialEq for ReturnType {
    fn eq(&self, other: &Self) -> (r: bool) {
        same_return(self, other)
    }
}

impl vstd::std_specs::cmp::PartialEqSpecImpl for ReturnType {
    open spec fn obeys_eq_spec() -> bool {
        true
    }

    open spec fn eq_spec(&self, other: &ReturnType) -> bool {
        self@ == other@
    }
}

impl PartialEq for VarBinding {
    fn eq(&self, other: &Self) -> (r: bool) {
        same_binding(self, other)
    }
}

impl vstd::std_specs::cmp::PartialEqSpecImpl for VarBinding {
    open spec fn obeys_eq_spec() -> bool {
        true
    }

    open spec fn eq_spec(&self, other: &VarBinding) -> bool {
        self@ == other@
    }
}

impl PartialEq for Expr {
    fn eq(&self, other: &Self) -> (r: bool) {
        same_expr_x(self, other)
    }
}

impl vstd::std_specs::cmp::PartialEqSpecImpl for Expr {
    open spec fn obeys_eq_spec() -> bool {
        true
    }

    open spec fn eq_spec(&self, other: &Expr) -> bool {
        same_expr(self@, other@)
    }
}

impl PartialEq for LValue {
    fn eq(&self, other: &Self) -> (r: bool) {
        same_lvalue_x(self, other)
    }
}

impl vstd::std_specs::cmp::PartialEqSpecImpl for LValue {
    open spec fn obeys_eq_spec() -> bool {
        true
    }

    open spec fn eq_spec(&self, other: &LValue) -> bool {
        same_lvalue(self@, other@)
    }
}

impl PartialEq for Stmt {
    fn eq(&self, other: &Self) -> (r: bool) {
        same_stmt_x(self, other)
    }
}

impl vstd::std_specs::cmp::PartialEqSpecImpl for Stmt {
    open spec fn obeys_eq_spec() -> bool {
        true
    }

    open spec fn eq_spec(&self, other: &Stmt) -> bool {
        same_stmt(self@, other@)
    }
}

// ── Top level ───────────────────────────────────────────────────────────

#[derive(Debug, Clone, PartialEq)]
pub struct StructDef {
    pub name: String,
    pub fields: Vec<(String, Type)>,
}

#[derive(Debug, Clone, PartialEq)]
pub struct FuncDef {
    pub name: String,
    pub params: Vec<(String, Type)>,
    pub return_type: ReturnType,
    pub body: Vec<Stmt>,
}

/// A struct definition as a value.
pub struct StructDefV {
    pub name: Seq<char>,
    pub fields: Seq<(Seq<char>, TypeV)>,
}

/// A function definition as a value.
pub struct FuncDefV {
    pub name: Seq<char>,
    pub params: Seq<(Seq<char>, TypeV)>,
    pub ret: ReturnTypeV,
    pub body: Seq<StmtV>,
}

/// An import as a value.
pub struct ImportV {
    pub alias: Seq<char>,
    pub items: Seq<Seq<char>>,
    pub path: Seq<char>,
}

/// A top-level item as a value.
pub enum TopLevelV {
    Struct(StructDefV),
    Func(FuncDefV),
    Import(ImportV),
}

pub open spec fn typed_names(v: Seq<(String, Type)>) -> Seq<(Seq<char>, TypeV)> {
    v.map_values(|p: (String, Type)| (p.0@, p.1@))
}

impl View for StructDef {
    type V = StructDefV;

    open spec fn view(&self) -> StructDefV {
        StructDefV { name: self.name@, fields: typed_names(self.fields@) }
    }
}

impl View for FuncDef {
    type V = FuncDefV;

    open spec fn view(&self) -> FuncDefV {
        FuncDefV {
            name: self.name@,
            params: typed_names(self.params@),
            ret: self.return_type@,
            body: svs(self.body@),
        }
    }
}

impl View for ImportStmt {
    type V = ImportV;

    open spec fn view(&self) -> ImportV {
        ImportV {
            alias: self.alias@,
            items: self.items@.map_values(|s: String| s@),
            path: self.path@,
        }
    }
}

impl View for TopLevel {
    type V = TopLevelV;

    open spec fn view(&self) -> TopLevelV {
        match self {
            TopLevel::Struct(x) => TopLevelV::Struct(x@),
            TopLevel::Func(x) => TopLevelV::Func(x@),
            TopLevel::Import(x) => TopLevelV::Import(x@),
        }
    }
}

impl View for Program {
    type V = Seq<TopLevelV>;

    open spec fn view(&self) -> Seq<TopLevelV> {
        self.items@.map_values(|t: TopLevel| t@)
    }
}

/// `import alias { items } from "path";`
#[derive(Debug, Clone, PartialEq)]
pub struct ImportStmt {
    pub alias: String,
    pub items: Vec<String>,
    pub path: String,
}

#[derive(Debug, Clone, PartialEq)]
pub enum TopLevel {
    Struct(StructDef),
    Func(FuncDef),
    Import(ImportStmt),
}

#[derive(Debug, Clone, PartialEq)]
pub struct Program {
    pub items: Vec<TopLevel>,
}


// ── S-expression text ───────────────────────────────────────────────────

pub open spec fn base_text(b: BaseTypeV) -> Seq<char> {
    match b {
        BaseTypeV::I32 => "i32"@,
        BaseTypeV::F64 => "f64"@,
        BaseTypeV::Str => "str"@,
        BaseTypeV::Bool => "bool"@,
        BaseTypeV::Void => "void"@,
        BaseTypeV::UserDef(n) => n,
    }
}

pub open spec fn type_sx(t: TypeV) -> Seq<char> {
    match t {
        TypeV::Base(b) => "(type \""@ + base_text(b) + "\")"@,
        TypeV::Array(b) => "(type \"["@ + base_text(b) + "]\")"@,
    }
}

pub open spec fn ret_sx(r: ReturnTypeV) -> Seq<char> {
    match r {
        ReturnTypeV::Single(t) => type_sx(t),
        ReturnTypeV::Pair(a, b) => "("@ + type_sx(a) + " "@ + type_sx(b) + ")"@,
    }
}

pub open spec fn binop_text(op: BinOp) -> Seq<char> {
    match op {
        BinOp::Or => "||"@,
        BinOp::And => "&&"@,
        BinOp::Eq => "=="@,
        BinOp::Neq => "!="@,
        BinOp::Lt => "<"@,
        BinOp::Le => "<="@,
        BinOp::Gt => ">"@,
        BinOp::Ge => ">="@,
        BinOp::Add => "+"@,
        BinOp::Sub => "-"@,
        BinOp::Mul => "*"@,
        BinOp::Div => "/"@,
    }
}

pub open spec fn unop_text(op: UnaryOp) -> Seq<char> {
    match op {
        UnaryOp::Neg => "-"@,
        UnaryOp::Not => "!"@,
    }
}

pub open spec fn bool_text(b: bool) -> Seq<char> {
    if b { "true"@ } else { "false"@ }
}

/// The S-expression of an expression.
pub open spec fn expr_sx(e: ExprV) -> Seq<char>
    decreases e,
{
    match e {
        ExprV::IntLit(v, _) => "(int-lit "@ + v + ")"@,
        ExprV::FloatLit(v, _) => "(float-lit "@ + v + ")"@,
        ExprV::StrLit(v, _) => "(str-lit "@ + debug_str(v) + ")"@,
        ExprV::BoolLit(v, _) => "(bool-lit "@ + bool_text(v) + ")"@,
        ExprV::Ident(n, _) => n,
        ExprV::Binary(l, op, r, _) => "("@ + binop_text(op) + " "@ + expr_sx(*l) + " "@ + expr_sx(*r) + ")"@,
        ExprV::Unary(op, x, _) => "("@ + unop_text(op) + " "@ + expr_sx(*x) + ")"@,
        ExprV::Call(f, args, _) => "(call "@ + expr_sx(*f) + " args=("@ + joined_sx(args) + "))"@,
        ExprV::Index(a, i, _) => "(index "@ + expr_sx(*a) + " "@ + expr_sx(*i) + ")"@,
        ExprV::Field(o, f, _) => "(. "@ + expr_sx(*o) + " "@ + f + ")"@,
        ExprV::ArrayLit(v, _) => "(array-lit"@ + spaced_sx(v) + ")"@,
        ExprV::StructLit(n, fs, _) => "(struct-lit \""@ + n + "\""@ + fields_sx(fs) + ")"@,
    }
}

/// Each expression preceded by a blank.
pub open spec fn spaced_sx(s: Seq<ExprV>) -> Seq<char>
    decreases s,
{
    if s.len() == 0 {
        Seq::empty()
    } else {
        spaced_sx(s.drop_last()) + " "@ + expr_sx(s.last())
    }
}

/// The expressions separated by blanks.
pub open spec fn joined_sx(s: Seq<ExprV>) -> Seq<char>
    decreases s,
{
    if s.len() == 0 {
        Seq::empty()
    } else if s.len() == 1 {
        expr_sx(s[0])
    } else {
        joined_sx(s.drop_last()) + " "@ + expr_sx(s.last())
    }
}

/// Each field initializer as ` (name value)`.
pub open spec fn fields_sx(s: Seq<(Seq<char>, ExprV)>) -> Seq<char>
    decreases s,
{
    if s.len() == 0 {
        Seq::empty()
    } else {
        fields_sx(s.drop_last()) + " ("@ + s.last().0 + " "@ + expr_sx(s.last().1) + ")"@
    }
}

pub open spec fn lvalue_sx(l: LValueV) -> Seq<char> {
    match l {
        LValueV::Ident(n, _) => n,
        LValueV::Index(a, i, _) => "(lvalue-index "@ + expr_sx(a) + " "@ + expr_sx(i) + ")"@,
        LValueV::Field(o, f, _) => "(lvalue-field "@ + expr_sx(o) + " "@ + f + ")"@,
    }
}

pub open spec fn binding_sx(b: VarBindingV) -> Seq<char> {
    match b {
        VarBindingV::Named(n, t) => "("@ + n + " "@ + type_sx(t) + ")"@,
        VarBindingV::Discard => "_"@,
    }
}

/// Each binding followed by a blank.
pub open spec fn bindings_sx(s: Seq<VarBindingV>) -> Seq<char>
    decreases s.len(),
{
    if s.len() == 0 {
        Seq::empty()
    } else {
        bindings_sx(s.drop_last()) + binding_sx(s.last()) + " "@
    }
}

/// The S-expression of a statement.
pub open spec fn stmt_sx(s: StmtV) -> Seq<char>
    decreases s,
{
    match s {
        StmtV::VarDecl(bs, init, _) => "(var-decl "@ + bindings_sx(bs) + "= "@ + expr_sx(init) + ")"@,
        StmtV::Assign(l, v, _) => "(assign "@ + lvalue_sx(l) + " "@ + expr_sx(v) + ")"@,
        StmtV::Return(vs, _) => if vs.len() == 0 {
            "(return)"@
        } else {
            "(return"@ + spaced_sx(vs) + ")"@
        },
        StmtV::If(c, t, e, _) => "(if "@ + expr_sx(c) + " (then "@ + stmt_sx(*t) + ")"@ + match e {
            Some(x) => " (else "@ + stmt_sx(*x) + ")"@,
            None => Seq::empty(),
        } + ")"@,
        StmtV::For(n, t, a, b, l, x, body, _) => "(for "@ + n + " "@ + type_sx(t) + " = "@ + expr_sx(a)
            + " , "@ + expr_sx(b) + " , "@ + lvalue_sx(l) + " "@ + expr_sx(x) + " in "@ + stmt_sx(*body)
            + ")"@,
        StmtV::Expr(e, _) => "(expr-stmt "@ + expr_sx(e) + ")"@,
        StmtV::Block(ss, _) => "(block"@ + stmts_sx(ss, "\n    "@) + ")"@,
    }
}

/// Each statement preceded by `sep`.
pub open spec fn stmts_sx(s: Seq<StmtV>, sep: Seq<char>) -> Seq<char>
    decreases s,
{
    if s.len() == 0 {
        Seq::empty()
    } else {
        stmts_sx(s.drop_last(), sep) + sep + stmt_sx(s.last())
    }
}

/// Each struct field as a `(field "name" type)` line.
pub open spec fn struct_fields_sx(s: Seq<(Seq<char>, TypeV)>) -> Seq<char>
    decreases s.len(),
{
    if s.len() == 0 {
        Seq::empty()
    } else {
        struct_fields_sx(s.drop_last()) + "\n    (field \""@ + s.last().0 + "\" "@ + type_sx(s.last().1) + ")"@
    }
}

/// The parameters as `(name type)`, separated by blanks.
pub open spec fn params_sx(s: Seq<(Seq<char>, TypeV)>) -> Seq<char>
    decreases s.len(),
{
    if s.len() == 0 {
        Seq::empty()
    } else if s.len() == 1 {
        "("@ + s[0].0 + " "@ + type_sx(s[0].1) + ")"@
    } else {
        params_sx(s.drop_last()) + " ("@ + s.last().0 + " "@ + type_sx(s.last().1) + ")"@
    }
}

/// The import names separated by `, `.
pub open spec fn names_sx(s: Seq<Seq<char>>) -> Seq<char>
    decreases s.len(),
{
    if s.len() == 0 {
        Seq::empty()
    } else if s.len() == 1 {
        s[0]
    } else {
        names_sx(s.drop_last()) + ", "@ + s.last()
    }
}

pub open spec fn struct_def_sx(d: StructDefV) -> Seq<char> {
    "(struct-def \""@ + d.name + "\""@ + struct_fields_sx(d.fields) + ")"@
}

pub open spec fn func_def_sx(d: FuncDefV) -> Seq<char> {
    "(func-def \""@ + d.name + "\" ["@ + params_sx(d.params) + "] -> "@ + ret_sx(d.ret) + "\n    (block"@
        + stmts_sx(d.body, "\n        "@) + "))"@
}

pub open spec fn import_sx(d: ImportV) -> Seq<char> {
    "(import \""@ + d.alias + "\" ["@ + names_sx(d.items) + "] from "@ + debug_str(d.path) + ")"@
}

pub open spec fn top_sx(t: TopLevelV) -> Seq<char> {
    match t {
        TopLevelV::Struct(d) => struct_def_sx(d),
        TopLevelV::Func(d) => func_def_sx(d),
        TopLevelV::Import(d) => import_sx(d),
    }
}

/// Each item on a line of its own, indented by two blanks.
pub open spec fn items_sx(s: Seq<TopLevelV>) -> Seq<char>
    decreases s.len(),
{
    if s.len() == 0 {
        Seq::empty()
    } else {
        items_sx(s.drop_last()) + "\n  "@ + top_sx(s.last())
    }
}

pub open spec fn program_sx(p: Seq<TopLevelV>) -> Seq<char> {
    "(program"@ + items_sx(p) + ")"@
}


pub proof fn lemma_evs_take(v: Seq<Expr>, i: int)
    requires
        0 <= i < v.len(),
    ensures
        evs(v.take(i + 1)) == evs(v.take(i)).push(ev(&v[i])),
{
    assert(v.take(i + 1).drop_last() =~= v.take(i));
}

pub proof fn lemma_svs_take(v: Seq<Stmt>, i: int)
    requires
        0 <= i < v.len(),
    ensures
        svs(v.take(i + 1)) == svs(v.take(i)).push(sv(&v[i])),
{
    assert(v.take(i + 1).drop_last() =~= v.take(i));
}

pub proof fn lemma_evf_take(v: Seq<(String, Expr)>, i: int)
    requires
        0 <= i < v.len(),
    ensures
        evf(v.take(i + 1)) == evf(v.take(i)).push((v[i].0@, ev(&v[i].1))),
{
    assert(v.take(i + 1).drop_last() =~= v.take(i));
}

pub(crate) fn write_base(b: &BaseType, out: &mut String)
    ensures
        final(out)@ == old(out)@ + base_text(b@),
{
    match b {
        BaseType::I32 => push_str(out, "i32"),
        BaseType::F64 => push_str(out, "f64"),
        BaseType::Str => push_str(out, "str"),
        BaseType::Bool => push_str(out, "bool"),
        BaseType::Void => push_str(out, "void"),
        BaseType::UserDef(n) => push_str(out, n.as_str()),
    }
}

fn write_type(t: &Type, out: &mut String)
    ensures
        final(out)@ == old(out)@ + type_sx(t@),
{
    match t {
        Type::Base(b) => {
            push_str(out, "(type \"");
            write_base(b, out);
            push_str(out, "\")");
        },
        Type::Array(b) => {
            push_str(out, "(type \"[");
            write_base(b, out);
            push_str(out, "]\")");
        },
    }
}

fn write_ret(r: &ReturnType, out: &mut String)
    ensures
        final(out)@ == old(out)@ + ret_sx(r@),
{
    match r {
        ReturnType::Single(t) => write_type(t, out),
        ReturnType::Pair(a, b) => {
            push_str(out, "(");
            write_type(a, out);
            push_str(out, " ");
            write_type(b, out);
            push_str(out, ")");
        },
    }
}

pub(crate) fn binop_str(op: BinOp) -> (r: &'static str)
    ensures
        r@ == binop_text(op),
{
    match op {
        BinOp::Or => "||",
        BinOp::And => "&&",
        BinOp::Eq => "==",
        BinOp::Neq => "!=",
        BinOp::Lt => "<",
        BinOp::Le => "<=",
        BinOp::Gt => ">",
        BinOp::Ge => ">=",
        BinOp::Add => "+",
        BinOp::Sub => "-",
        BinOp::Mul => "*",
        BinOp::Div => "/",
    }
}

pub(crate) fn unop_str(op: UnaryOp) -> (r: &'static str)
    ensures
        r@ == unop_text(op),
{
    match op {
        UnaryOp::Neg => "-",
        UnaryOp::Not => "!",
    }
}

#[verifier::loop_isolation(false)]
fn write_spaced(v: &Vec<Expr>, out: &mut String)
    ensures
        final(out)@ == old(out)@ + spaced_sx(evs(v@)),
    decreases v, 0nat,
{
    let mut i: usize = 0;
    assert(v@.take(0) =~= Seq::<Expr>::empty());
    while i < v.len()
        invariant
            i <= v@.len(),
            out@ == old(out)@ + spaced_sx(evs(v@.take(i as int))),
        decreases v@.len() - i,
    {
        proof {
            assert(decreases_to!(v => v@[i as int]));
            lemma_evs_take(v@, i as int);
            let x = evs(v@.take(i as int));
            assert(x.push(ev(&v@[i as int])).drop_last() =~= x);
        }
        push_str(out, " ");
        write_expr(&v[i], out);
        i += 1;
    }
    assert(v@.take(v@.len() as int) =~= v@);
}

#[verifier::loop_isolation(false)]
fn write_joined(v: &Vec<Expr>, out: &mut String)
    ensures
        final(out)@ == old(out)@ + joined_sx(evs(v@)),
    decreases v, 0nat,
{
    if v.len() == 0 {
        assert(v@ =~= Seq::<Expr>::empty());
        return;
    }
    proof {
        assert(decreases_to!(v => v@[0]));
        lemma_evs_take(v@, 0);
        assert(v@.take(0) =~= Seq::<Expr>::empty());
    }
    write_expr(&v[0], out);
    let mut i: usize = 1;
    while i < v.len()
        invariant
            1 <= i <= v@.len(),
            out@ == old(out)@ + joined_sx(evs(v@.take(i as int))),
        decreases v@.len() - i,
    {
        proof {
            assert(decreases_to!(v => v@[i as int]));
            lemma_evs_take(v@, i as int);
            let x = evs(v@.take(i as int));
            lemma_evs(v@.take(i as int));
            assert(x.push(ev(&v@[i as int])).drop_last() =~= x);
        }
        push_str(out, " ");
        write_expr(&v[i], out);
        i += 1;
    }
    assert(v@.take(v@.len() as int) =~= v@);
}

#[verifier::loop_isolation(false)]
fn write_fields(v: &Vec<(String, Expr)>, out: &mut String)
    ensures
        final(out)@ == old(out)@ + fields_sx(evf(v@)),
    decreases v, 0nat,
{
    let mut i: usize = 0;
    assert(v@.take(0) =~= Seq::<(String, Expr)>::empty());
    while i < v.len()
        invariant
            i <= v@.len(),
            out@ == old(out)@ + fields_sx(evf(v@.take(i as int))),
        decreases v@.len() - i,
    {
        proof {
            assert(decreases_to!(v => v@[i as int].1));
            lemma_evf_take(v@, i as int);
            let x = evf(v@.take(i as int));
            assert(x.push((v@[i as int].0@, ev(&v@[i as int].1))).drop_last() =~= x);
        }
        push_str(out, " (");
        push_str(out, v[i].0.as_str());
        push_str(out, " ");
        write_expr(&v[i].1, out);
        push_str(out, ")");
        i += 1;
    }
    assert(v@.take(v@.len() as int) =~= v@);
}

fn write_expr(e: &Expr, out: &mut String)
    ensures
        final(out)@ == old(out)@ + expr_sx(e@),
    decreases e, 1nat,
{
    match e {
        Expr::IntLit(v, _) => {
            push_str(out, "(int-lit ");
            push_str(out, v.as_str());
            push_str(out, ")");
        },
        Expr::FloatLit(v, _) => {
            push_str(out, "(float-lit ");
            push_str(out, v.as_str());
            push_str(out, ")");
        },
        Expr::StrLit(v, _) => {
            push_str(out, "(str-lit ");
            let q = debug_quoted(v.as_str());
            push_str(out, q.as_str());
            push_str(out, ")");
        },
        Expr::BoolLit(v, _) => {
            push_str(out, "(bool-lit ");
            if *v {
                push_str(out, "true");
            } else {
                push_str(out, "false");
            }
            push_str(out, ")");
        },
        Expr::Ident(n, _) => push_str(out, n.as_str()),
        Expr::Binary { left, op, right, .. } => {
            push_str(out, "(");
            push_str(out, binop_str(*op));
            push_str(out, " ");
            write_expr(&**left, out);
            push_str(out, " ");
            write_expr(&**right, out);
            push_str(out, ")");
        },
        Expr::Unary { op, expr, .. } => {
            push_str(out, "(");
            push_str(out, unop_str(*op));
            push_str(out, " ");
            write_expr(&**expr, out);
            push_str(out, ")");
        },
        Expr::Call { func, args, .. } => {
            push_str(out, "(call ");
            write_expr(&**func, out);
            push_str(out, " args=(");
            write_joined(args, out);
            push_str(out, "))");
        },
        Expr::Index { array, index, .. } => {
            push_str(out, "(index ");
            write_expr(&**array, out);
            push_str(out, " ");
            write_expr(&**index, out);
            push_str(out, ")");
        },
        Expr::FieldAccess { obj, field, .. } => {
            push_str(out, "(. ");
            write_expr(&**obj, out);
            push_str(out, " ");
            push_str(out, field.as_str());
            push_str(out, ")");
        },
        Expr::ArrayLit(v, _) => {
            push_str(out, "(array-lit");
            write_spaced(v, out);
            push_str(out, ")");
        },
        Expr::StructLit { name, fields, .. } => {
            push_str(out, "(struct-lit \"");
            push_str(out, name.as_str());
            push_str(out, "\"");
            write_fields(fields, out);
            push_str(out, ")");
        },
    }
}

fn write_lvalue(l: &LValue, out: &mut String)
    ensures
        final(out)@ == old(out)@ + lvalue_sx(l@),
{
    match l {
        LValue::Ident(n, _) => push_str(out, n.as_str()),
        LValue::Index { array, index, .. } => {
            push_str(out, "(lvalue-index ");
            write_expr(&**array, out);
            push_str(out, " ");
            write_expr(&**index, out);
            push_str(out, ")");
        },
        LValue::FieldAccess { obj, field, .. } => {
            push_str(out, "(lvalue-field ");
            write_expr(&**obj, out);
            push_str(out, " ");
            push_str(out, field.as_str());
            push_str(out, ")");
        },
    }
}

fn write_binding(b: &VarBinding, out: &mut String)
    ensures
        final(out)@ == old(out)@ + binding_sx(b@),
{
    match b {
        VarBinding::Named { name, ty } => {
            push_str(out, "(");
            push_str(out, name.as_str());
            push_str(out, " ");
            write_type(ty, out);
            push_str(out, ")");
        },
        VarBinding::Discard => push_str(out, "_"),
    }
}

fn write_bindings(v: &Vec<VarBinding>, out: &mut String)
    ensures
        final(out)@ == old(out)@ + bindings_sx(vbs(v@)),
{
    let mut i: usize = 0;
    assert(vbs(v@.take(0)) =~= Seq::<VarBindingV>::empty());
    while i < v.len()
        invariant
            i <= v@.len(),
            out@ == old(out)@ + bindings_sx(vbs(v@.take(i as int))),
        decreases v@.len() - i,
    {
        proof {
            let x = vbs(v@.take(i as int));
            assert(vbs(v@.take(i + 1)) =~= x.push(vb_v(v@[i as int])));
            assert(x.push(vb_v(v@[i as int])).drop_last() =~= x);
        }
        write_binding(&v[i], out);
        push_str(out, " ");
        i += 1;
    }
    assert(v@.take(v@.len() as int) =~= v@);
}

#[verifier::loop_isolation(false)]
fn write_stmts(v: &Vec<Stmt>, sep: &str, out: &mut String)
    ensures
        final(out)@ == old(out)@ + stmts_sx(svs(v@), sep@),
    decreases v, 0nat,
{
    let mut i: usize = 0;
    assert(v@.take(0) =~= Seq::<Stmt>::empty());
    while i < v.len()
        invariant
            i <= v@.len(),
            out@ == old(out)@ + stmts_sx(svs(v@.take(i as int)), sep@),
        decreases v@.len() - i,
    {
        proof {
            assert(decreases_to!(v => v@[i as int]));
            lemma_svs_take(v@, i as int);
            let x = svs(v@.take(i as int));
            assert(x.push(sv(&v@[i as int])).drop_last() =~= x);
        }
        push_str(out, sep);
        write_stmt(&v[i], out);
        i += 1;
    }
    assert(v@.take(v@.len() as int) =~= v@);
}

#[verifier::rlimit(60)]
#[verifier::spinoff_prover]
fn write_stmt(s: &Stmt, out: &mut String)
    ensures
        final(out)@ == old(out)@ + stmt_sx(s@),
    decreases s, 1nat,
{
    match s {
        Stmt::VarDecl { bindings, init, .. } => {
            push_str(out, "(var-decl ");
            write_bindings(bindings, out);
            push_str(out, "= ");
            write_expr(&**init, out);
            push_str(out, ")");
        },
        Stmt::Assign { lvalue, value, .. } => {
            push_str(out, "(assign ");
            write_lvalue(lvalue, out);
            push_str(out, " ");
            write_expr(&**value, out);
            push_str(out, ")");
        },
        Stmt::Return { values, .. } => {
            proof {
                lemma_evs(values@);
            }
            if values.len() == 0 {
                push_str(out, "(return)");
            } else {
                push_str(out, "(return");
                write_spaced(values, out);
                push_str(out, ")");
            }
        },
        Stmt::If { condition, then_branch, else_branch, .. } => {
            push_str(out, "(if ");
            write_expr(&**condition, out);
            push_str(out, " (then ");
            write_stmt(&**then_branch, out);
            push_str(out, ")");
            match else_branch {
                Some(x) => {
                    push_str(out, " (else ");
                    write_stmt(&**x, out);
                    push_str(out, ")");
                },
                None => {},
            }
            push_str(out, ")");
        },
        Stmt::For { var_name, var_type, start, end, step_lvalue, step_expr, body, .. } => {
            push_str(out, "(for ");
            push_str(out, var_name.as_str());
            push_str(out, " ");
            write_type(var_type, out);
            push_str(out, " = ");
            write_expr(&**start, out);
            push_str(out, " , ");
            write_expr(&**end, out);
            push_str(out, " , ");
            write_lvalue(step_lvalue, out);
            push_str(out, " ");
            write_expr(&**step_expr, out);
            push_str(out, " in ");
            write_stmt(&**body, out);
            push_str(out, ")");
        },
        Stmt::Expr(e, _) => {
            push_str(out, "(expr-stmt ");
            write_expr(&**e, out);
            push_str(out, ")");
        },
        Stmt::Block(v, _) => {
            push_str(out, "(block");
            write_stmts(v, "\n    ", out);
            push_str(out, ")");
        },
    }
}


fn write_struct_fields(v: &Vec<(String, Type)>, out: &mut String)
    ensures
        final(out)@ == old(out)@ + struct_fields_sx(typed_names(v@)),
{
    let mut i: usize = 0;
    assert(typed_names(v@.take(0)) =~= Seq::<(Seq<char>, TypeV)>::empty());
    while i < v.len()
        invariant
            i <= v@.len(),
            out@ == old(out)@ + struct_fields_sx(typed_names(v@.take(i as int))),
        decreases v@.len() - i,
    {
        proof {
            let x = typed_names(v@.take(i as int));
            let y = (v@[i as int].0@, v@[i as int].1@);
            assert(typed_names(v@.take(i + 1)) =~= x.push(y));
            assert(x.push(y).drop_last() =~= x);
        }
        push_str(out, "\n    (field \"");
        push_str(out, v[i].0.as_str());
        push_str(out, "\" ");
        write_type(&v[i].1, out);
        push_str(out, ")");
        i += 1;
    }
    assert(v@.take(v@.len() as int) =~= v@);
}

fn write_params(v: &Vec<(String, Type)>, out: &mut String)
    ensures
        final(out)@ == old(out)@ + params_sx(typed_names(v@)),
{
    if v.len() == 0 {
        assert(typed_names(v@) =~= Seq::<(Seq<char>, TypeV)>::empty());
        return;
    }
    push_str(out, "(");
    push_str(out, v[0].0.as_str());
    push_str(out, " ");
    write_type(&v[0].1, out);
    push_str(out, ")");
    let mut i: usize = 1;
    assert(typed_names(v@.take(1)) =~= seq![(v@[0].0@, v@[0].1@)]);
    while i < v.len()
        invariant
            1 <= i <= v@.len(),
            out@ == old(out)@ + params_sx(typed_names(v@.take(i as int))),
        decreases v@.len() - i,
    {
        proof {
            let x = typed_names(v@.take(i as int));
            let y = (v@[i as int].0@, v@[i as int].1@);
            assert(typed_names(v@.take(i + 1)) =~= x.push(y));
            assert(x.push(y).drop_last() =~= x);
        }
        push_str(out, " (");
        push_str(out, v[i].0.as_str());
        push_str(out, " ");
        write_type(&v[i].1, out);
        push_str(out, ")");
        i += 1;
    }
    assert(v@.take(v@.len() as int) =~= v@);
}

fn write_names(v: &Vec<String>, out: &mut String)
    ensures
        final(out)@ == old(out)@ + names_sx(v@.map_values(|s: String| s@)),
{
    if v.len() == 0 {
        assert(v@.map_values(|s: String| s@) =~= Seq::<Seq<char>>::empty());
        return;
    }
    push_str(out, v[0].as_str());
    let mut i: usize = 1;
    assert(v@.take(1).map_values(|s: String| s@) =~= seq![v@[0]@]);
    while i < v.len()
        invariant
            1 <= i <= v@.len(),
            out@ == old(out)@ + names_sx(v@.take(i as int).map_values(|s: String| s@)),
        decreases v@.len() - i,
    {
        proof {
            let x = v@.take(i as int).map_values(|s: String| s@);
            assert(v@.take(i + 1).map_values(|s: String| s@) =~= x.push(v@[i as int]@));
            assert(x.push(v@[i as int]@).drop_last() =~= x);
        }
        push_str(out, ", ");
        push_str(out, v[i].as_str());
        i += 1;
    }
    assert(v@.take(v@.len() as int) =~= v@);
}

fn write_top(t: &TopLevel, out: &mut String)
    ensures
        final(out)@ == old(out)@ + top_sx(t@),
{
    match t {
        TopLevel::Struct(d) => {
            push_str(out, "(struct-def \"");
            push_str(out, d.name.as_str());
            push_str(out, "\"");
            write_struct_fields(&d.fields, out);
            push_str(out, ")");
        },
        TopLevel::Func(d) => {
            push_str(out, "(func-def \"");
            push_str(out, d.name.as_str());
            push_str(out, "\" [");
            write_params(&d.params, out);
            push_str(out, "] -> ");
            write_ret(&d.return_type, out);
            push_str(out, "\n    (block");
            write_stmts(&d.body, "\n        ", out);
            push_str(out, "))");
        },
        TopLevel::Import(d) => {
            push_str(out, "(import \"");
            push_str(out, d.alias.as_str());
            push_str(out, "\" [");
            write_names(&d.items, out);
            push_str(out, "] from ");
            let q = debug_quoted(d.path.as_str());
            push_str(out, q.as_str());
            push_str(out, ")");
        },
    }
}

impl BaseType {
    /// The type's name.
    pub fn to_sexpr(&self) -> (r: String)
        ensures
            r@ == base_text(self@),
    {
        let mut out = String::new();
        write_base(self, &mut out);
        out
    }
}

impl Type {
    /// `(type "name")`, or `(type "[name]")` for an array type.
    pub fn to_sexpr(&self) -> (r: String)
        ensures
            r@ == type_sx(self@),
    {
        let mut out = String::new();
        write_type(self, &mut out);
        out
    }
}

impl ReturnType {
    pub fn to_sexpr(&self) -> (r: String)
        ensures
            r@ == ret_sx(self@),
    {
        let mut out = String::new();
        write_ret(self, &mut out);
        out
    }
}

impl BinOp {
    /// The operator's spelling in source.
    pub fn to_sexpr(&self) -> (r: String)
        ensures
            r@ == binop_text(*self),
    {
        string_of(binop_str(*self))
    }
}

impl UnaryOp {
    /// The operator's spelling in source.
    pub fn to_sexpr(&self) -> (r: String)
        ensures
            r@ == unop_text(*self),
    {
        string_of(unop_str(*self))
    }
}

/// The binding strength of an expression's outermost operator: 1 for `||`
/// up to 6 for `*` and `/`, 7 for a unary operator, 8 for anything else.
pub open spec fn prec_of(e: ExprV) -> u8 {
    match e {
        ExprV::Binary(_, op, _, _) => match op {
            BinOp::Or => 1,
            BinOp::And => 2,
            BinOp::Eq | BinOp::Neq => 3,
            BinOp::Lt | BinOp::Le | BinOp::Gt | BinOp::Ge => 4,
            BinOp::Add | BinOp::Sub => 5,
            BinOp::Mul | BinOp::Div => 6,
        },
        ExprV::Unary(..) => 7,
        _ => 8,
    }
}

/// The span an expression carries.
pub open spec fn expr_span(e: ExprV) -> SpanV {
    match e {
        ExprV::Binary(_, _, _, s) => s,
        ExprV::Unary(_, _, s) => s,
        ExprV::Call(_, _, s) => s,
        ExprV::Index(_, _, s) => s,
        ExprV::Field(_, _, s) => s,
        ExprV::IntLit(_, s) => s,
        ExprV::FloatLit(_, s) => s,
        ExprV::StrLit(_, s) => s,
        ExprV::BoolLit(_, s) => s,
        ExprV::ArrayLit(_, s) => s,
        ExprV::StructLit(_, _, s) => s,
        ExprV::Ident(_, s) => s,
    }
}

/// The span a statement carries.
pub open spec fn stmt_span(s: StmtV) -> SpanV {
    match s {
        StmtV::VarDecl(_, _, x) => x,
        StmtV::Assign(_, _, x) => x,
        StmtV::Return(_, x) => x,
        StmtV::If(_, _, _, x) => x,
        StmtV::For(_, _, _, _, _, _, _, x) => x,
        StmtV::Expr(_, x) => x,
        StmtV::Block(_, x) => x,
    }
}

/// The span a left value carries.
pub open spec fn lvalue_span(l: LValueV) -> SpanV {
    match l {
        LValueV::Ident(_, x) => x,
        LValueV::Index(_, _, x) => x,
        LValueV::Field(_, _, x) => x,
    }
}

impl Expr {
    /// The expression as an S-expression.
    pub fn to_sexpr(&self) -> (r: String)
        ensures
            r@ == expr_sx(self@),
    {
        let mut out = String::new();
        write_expr(self, &mut out);
        out
    }

    /// The binding strength of the outermost operator (see `prec_of`).
    pub fn prec(&self) -> (r: u8)
        ensures
            r == prec_of(self@),
    {
        match self {
            Expr::Binary { op, .. } => match op {
                BinOp::Or => 1,
                BinOp::And => 2,
                BinOp::Eq | BinOp::Neq => 3,
                BinOp::Lt | BinOp::Le | BinOp::Gt | BinOp::Ge => 4,
                BinOp::Add | BinOp::Sub => 5,
                BinOp::Mul | BinOp::Div => 6,
            },
            Expr::Unary { .. } => 7,
            _ => 8,
        }
    }
}

impl LValue {
    pub fn to_sexpr(&self) -> (r: String)
        ensures
            r@ == lvalue_sx(self@),
    {
        let mut out = String::new();
        write_lvalue(self, &mut out);
        out
    }
}

impl VarBinding {
    pub fn to_sexpr(&self) -> (r: String)
        ensures
            r@ == binding_sx(self@),
    {
        let mut out = String::new();
        write_binding(self, &mut out);
        out
    }
}

impl Stmt {
    /// The statement as an S-expression; a block puts each statement on a
    /// line of its own.
    pub fn to_sexpr(&self) -> (r: String)
        ensures
            r@ == stmt_sx(self@),
    {
        let mut out = String::new();
        write_stmt(self, &mut out);
        out
    }
}

/// A copy of a base type.
pub fn clone_base(b: &BaseType) -> (r: BaseType)
    ensures
        r@ == b@,
{
    match b {
        BaseType::I32 => BaseType::I32,
        BaseType::F64 => BaseType::F64,
        BaseType::Str => BaseType::Str,
        BaseType::Bool => BaseType::Bool,
        BaseType::Void => BaseType::Void,
        BaseType::UserDef(n) => BaseType::UserDef(n.clone()),
    }
}

/// A copy of a type.
pub fn clone_type(t: &Type) -> (r: Type)
    ensures
        r@ == t@,
{
    match t {
        Type::Base(b) => Type::Base(clone_base(b)),
        Type::Array(b) => Type::Array(clone_base(b)),
    }
}

/// A copy of a struct definition.
pub fn clone_struct_def(s: &StructDef) -> (r: StructDef)
    ensures
        r@ == s@,
{
    let mut fields: Vec<(String, Type)> = Vec::new();
    let mut i: usize = 0;
    while i < s.fields.len()
        invariant
            i <= s.fields@.len(),
            fields@.len() == i,
            forall|k: int| 0 <= k < i ==> (#[trigger] fields@[k]).0@ == s.fields@[k].0@ && fields@[k].1@ == s.fields@[k].1@,
        decreases s.fields@.len() - i,
    {
        fields.push((s.fields[i].0.clone(), clone_type(&s.fields[i].1)));
        i += 1;
    }
    assert(typed_names(fields@) =~= typed_names(s.fields@));
    StructDef { name: s.name.clone(), fields }
}

impl StructDef {
    pub fn to_sexpr(&self) -> (r: String)
        ensures
            r@ == struct_def_sx(self@),
    {
        let mut out = String::new();
        push_str(&mut out, "(struct-def \"");
        push_str(&mut out, self.name.as_str());
        push_str(&mut out, "\"");
        write_struct_fields(&self.fields, &mut out);
        push_str(&mut out, ")");
        out
    }
}

impl FuncDef {
    pub fn to_sexpr(&self) -> (r: String)
        ensures
            r@ == func_def_sx(self@),
    {
        let mut out = String::new();
        push_str(&mut out, "(func-def \"");
        push_str(&mut out, self.name.as_str());
        push_str(&mut out, "\" [");
        write_params(&self.params, &mut out);
        push_str(&mut out, "] -> ");
        write_ret(&self.return_type, &mut out);
        push_str(&mut out, "\n    (block");
        write_stmts(&self.body, "\n        ", &mut out);
        push_str(&mut out, "))");
        out
    }
}

impl ImportStmt {
    pub fn to_sexpr(&self) -> (r: String)
        ensures
            r@ == import_sx(self@),
    {
        let mut out = String::new();
        write_top(&TopLevel::Import(self.clone_import()), &mut out);
        out
    }

    fn clone_import(&self) -> (r: ImportStmt)
        ensures
            r@ == self@,
    {
        let mut items: Vec<String> = Vec::new();
        let mut i: usize = 0;
        while i < self.items.len()
            invariant
                i <= self.items@.len(),
                items@.len() == i,
                forall|k: int| 0 <= k < i ==> (#[trigger] items@[k])@ == self.items@[k]@,
            decreases self.items@.len() - i,
        {
            items.push(self.items[i].clone());
            i += 1;
        }
        assert(items@.map_values(|s: String| s@) =~= self.items@.map_values(|s: String| s@));
        ImportStmt { alias: self.alias.clone(), items, path: self.path.clone() }
    }
}

impl TopLevel {
    pub fn to_sexpr(&self) -> (r: String)
        ensures
            r@ == top_sx(self@),
    {
        let mut out = String::new();
        write_top(self, &mut out);
        out
    }
}

impl Program {
    /// `(program` followed by each item on a line of its own, then `)`.
    pub fn to_sexpr(&self) -> (r: String)
        ensures
            r@ == program_sx(self@),
    {
        let mut out = String::new();
        push_str(&mut out, "(program");
        let mut i: usize = 0;
        assert(self.items@.take(0).map_values(|t: TopLevel| t@) =~= Seq::<TopLevelV>::empty());
        while i < self.items.len()
            invariant
                i <= self.items@.len(),
                out@ == "(program"@ + items_sx(self.items@.take(i as int).map_values(|t: TopLevel| t@)),
            decreases self.items@.len() - i,
        {
            proof {
                let x = self.items@.take(i as int).map_values(|t: TopLevel| t@);
                let y = self.items@[i as int]@;
                assert(self.items@.take(i + 1).map_values(|t: TopLevel| t@) =~= x.push(y));
                assert(x.push(y).drop_last() =~= x);
            }
            push_str(&mut out, "\n  ");
            write_top(&self.items[i], &mut out);
            i += 1;
        }
        assert(self.items@.take(self.items@.len() as int) =~= self.items@);
        push_str(&mut out, ")");
        out
    }
}

/// The span of an expression.
pub fn span_of_expr(expr: &Expr) -> (r: Range<usize>)
    ensures
        span_v(r) == expr_span(expr@),
{
    let s = match expr {
        Expr::Binary { span, .. } => span,
        Expr::Unary { span, .. } => span,
        Expr::Call { span, .. } => span,
        Expr::Index { span, .. } => span,
        Expr::FieldAccess { span, .. } => span,
        Expr::StructLit { span, .. } => span,
        Expr::IntLit(_, span) => span,
        Expr::FloatLit(_, span) => span,
        Expr::StrLit(_, span) => span,
        Expr::BoolLit(_, span) => span,
        Expr::ArrayLit(_, span) => span,
        Expr::Ident(_, span) => span,
    };
    Range { start: s.start, end: s.end }
}

/// The span of a statement.
pub fn span_of_stmt(stmt: &Stmt) -> (r: Range<usize>)
    ensures
        span_v(r) == stmt_span(stmt@),
{
    let s = match stmt {
        Stmt::VarDecl { span, .. } => span,
        Stmt::Assign { span, .. } => span,
        Stmt::Return { span, .. } => span,
        Stmt::If { span, .. } => span,
        Stmt::For { span, .. } => span,
        Stmt::Expr(_, span) => span,
        Stmt::Block(_, span) => span,
    };
    Range { start: s.start, end: s.end }
}

/// The span of a left value.
pub fn span_of_lvalue(lv: &LValue) -> (r: Range<usize>)
    ensures
        span_v(r) == lvalue_span(lv@),
{
    let s = match lv {
        LValue::Ident(_, span) => span,
        LValue::Index { span, .. } => span,
        LValue::FieldAccess { span, .. } => span,
    };
    Range { start: s.start, end: s.end }
}

// ── Laws of equality up to spans ────────────────────────────────────────

/// Expression equality ignores spans and is an equivalence: reflexive,
/// symmetric and transitive.
pub proof fn law_expr_equality(a: ExprV, b: ExprV, c: ExprV)
    ensures
        same_expr(a, a),
        same_expr(a, b) ==> same_expr(b, a),
        same_expr(a, b) && same_expr(b, c) ==> same_expr(a, c),
    decreases a,
{
    match a {
        ExprV::Binary(l1, _, r1, _) => {
            let (lb, rb) = match b {
                ExprV::Binary(l2, _, r2, _) => (*l2, *r2),
                _ => (*l1, *r1),
            };
            let (lc, rc) = match c {
                ExprV::Binary(l3, _, r3, _) => (*l3, *r3),
                _ => (*l1, *r1),
            };
            law_expr_equality(*l1, lb, lc);
            law_expr_equality(*r1, rb, rc);
        },
        ExprV::Unary(_, e1, _) => {
            let eb = match b {
                ExprV::Unary(_, e2, _) => *e2,
                _ => *e1,
            };
            let ec = match c {
                ExprV::Unary(_, e3, _) => *e3,
                _ => *e1,
            };
            law_expr_equality(*e1, eb, ec);
        },
        ExprV::Call(f1, a1, _) => {
            let (fb, ab) = match b {
                ExprV::Call(f2, a2, _) => (*f2, a2),
                _ => (*f1, a1),
            };
            let (fc, ac) = match c {
                ExprV::Call(f3, a3, _) => (*f3, a3),
                _ => (*f1, a1),
            };
            law_expr_equality(*f1, fb, fc);
            assert forall|i: int| 0 <= i < a1.len() implies {
                &&& same_expr(#[trigger] a1[i], a1[i])
                &&& (i < ab.len() && same_expr(a1[i], ab[i]) ==> same_expr(ab[i], a1[i]))
                &&& (i < ab.len() && i < ac.len() && same_expr(a1[i], ab[i]) && same_expr(ab[i], ac[i]) ==> same_expr(a1[i], ac[i]))
            } by {
                let x = if i < ab.len() { ab[i] } else { a1[i] };
                let y = if i < ac.len() { ac[i] } else { a1[i] };
                law_expr_equality(a1[i], x, y);
            }
        },
        ExprV::Index(x1, i1, _) => {
            let (xb, ib) = match b {
                ExprV::Index(x2, i2, _) => (*x2, *i2),
                _ => (*x1, *i1),
            };
            let (xc, ic) = match c {
                ExprV::Index(x3, i3, _) => (*x3, *i3),
                _ => (*x1, *i1),
            };
            law_expr_equality(*x1, xb, xc);
            law_expr_equality(*i1, ib, ic);
        },
        ExprV::Field(o1, _, _) => {
            let ob = match b {
                ExprV::Field(o2, _, _) => *o2,
                _ => *o1,
            };
            let oc = match c {
                ExprV::Field(o3, _, _) => *o3,
                _ => *o1,
            };
            law_expr_equality(*o1, ob, oc);
        },
        ExprV::ArrayLit(a1, _) => {
            let ab = match b {
                ExprV::ArrayLit(a2, _) => a2,
                _ => a1,
            };
            let ac = match c {
                ExprV::ArrayLit(a3, _) => a3,
                _ => a1,
            };
            assert forall|i: int| 0 <= i < a1.len() implies {
                &&& same_expr(#[trigger] a1[i], a1[i])
                &&& (i < ab.len() && same_expr(a1[i], ab[i]) ==> same_expr(ab[i], a1[i]))
                &&& (i < ab.len() && i < ac.len() && same_expr(a1[i], ab[i]) && same_expr(ab[i], ac[i]) ==> same_expr(a1[i], ac[i]))
            } by {
                let x = if i < ab.len() { ab[i] } else { a1[i] };
                let y = if i < ac.len() { ac[i] } else { a1[i] };
                law_expr_equality(a1[i], x, y);
            }
        },
        ExprV::StructLit(_, f1, _) => {
            let fb = match b {
                ExprV::StructLit(_, f2, _) => f2,
                _ => f1,
            };
            let fc = match c {
                ExprV::StructLit(_, f3, _) => f3,
                _ => f1,
            };
            assert forall|i: int| 0 <= i < f1.len() implies {
                &&& same_expr((#[trigger] f1[i]).1, f1[i].1)
                &&& (i < fb.len() && same_expr(f1[i].1, fb[i].1) ==> same_expr(fb[i].1, f1[i].1))
                &&& (i < fb.len() && i < fc.len() && same_expr(f1[i].1, fb[i].1) && same_expr(fb[i].1, fc[i].1) ==> same_expr(f1[i].1, fc[i].1))
            } by {
                let x = if i < fb.len() { fb[i].1 } else { f1[i].1 };
                let y = if i < fc.len() { fc[i].1 } else { f1[i].1 };
                law_expr_equality(f1[i].1, x, y);
            }
        },
        _ => {},
    }
}

} // verus!
