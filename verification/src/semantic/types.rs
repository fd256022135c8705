//! Semantic types and the typed tree the checker produces.

use std::ops::Range;
use vstd::prelude::*;
use crate::ast::{
    evs, span_v, BaseType, BaseTypeV, BinOp, LValue, LValueV, ReturnType, ReturnTypeV, StructDef,
    StructDefV, Type, TypeV, UnaryOp,
};
use crate::text::{push_str, string_of};

verus! {

/// A resolved type.
#[derive(Debug)]
pub enum KangType {
    I32,
    F64,
    Str,
    Bool,
    Void,
    Array(Box<KangType>),
    Struct(String),
    Pair(Box<KangType>, Box<KangType>),
}

/// A resolved type as a value.
pub enum KT {
    I32,
    F64,
    Str,
    Bool,
    Void,
    Array(Box<KT>),
    Struct(Seq<char>),
    Pair(Box<KT>, Box<KT>),
}

pub open spec fn kt(t: &KangType) -> KT
    decreases t,
{
    match t {
        KangType::I32 => KT::I32,
        KangType::F64 => KT::F64,
        KangType::Str => KT::Str,
        KangType::Bool => KT::Bool,
        KangType::Void => KT::Void,
        KangType::Array(e) => KT::Array(Box::new(kt(&**e))),
        KangType::Struct(n) => KT::Struct(n@),
        KangType::Pair(a, b) => KT::Pair(Box::new(kt(&**a)), Box::new(kt(&**b))),
    }
}

impl View for KangType {
    type V = KT;

    open spec fn view(&self) -> KT {
        kt(self)
    }
}

fn same_kt(a: &KangType, b: &KangType) -> (r: bool)
    ensures
        r == (a@ == b@),
    decreases a,
{
    match (a, b) {
        (KangType::I32, KangType::I32) => true,
        (KangType::F64, KangType::F64) => true,
        (KangType::Str, KangType::Str) => true,
        (KangType::Bool, KangType::Bool) => true,
        (KangType::Void, KangType::Void) => true,
        (KangType::Array(x), KangType::Array(y)) => same_kt(&**x, &**y),
        (KangType::Struct(x), KangType::Struct(y)) => crate::text::same_text(x, y),
        (KangType::Pair(x1, x2), KangType::Pair(y1, y2)) => same_kt(&**x1, &**y1) && same_kt(&**x2, &**y2),
        _ => false,
    }
}

fn clone_kt(a: &KangType) -> (r: KangType)
    ensures
        r@ == a@,
    decreases a,
{
    match a {
        KangType::I32 => KangType::I32,
        KangType::F64 => KangType::F64,
        KangType::Str => KangType::Str,
        KangType::Bool => KangType::Bool,
        KangType::Void => KangType::Void,
        KangType::Array(e) => KangType::Array(Box::new(clone_kt(&**e))),
        KangType::Struct(n) => KangType::Struct(n.clone()),
        KangType::Pair(x, y) => KangType::Pair(Box::new(clone_kt(&**x)), Box::new(clone_kt(&**y))),
    }
}

impl Clone for KangType {
    fn clone(&self) -> (r: Self)
        ensures
            r@ == self@,
    {
        clone_kt(self)
    }
}

impl PartialEq for KangType {
    fn eq(&self, other: &Self) -> (r: bool) {
        same_kt(self, other)
    }
}

impl vstd::std_specs::cmp::PartialEqSpecImpl for KangType {
    open spec fn obeys_eq_spec() -> bool {
        true
    }

    open spec fn eq_spec(&self, other: &KangType) -> bool {
        self@ == other@
    }
}

pub open spec fn kt_of_base(b: BaseTypeV) -> KT {
    match b {
        BaseTypeV::I32 => KT::I32,
        BaseTypeV::F64 => KT::F64,
        BaseTypeV::Str => KT::Str,
        BaseTypeV::Bool => KT::Bool,
        BaseTypeV::Void => KT::Void,
        BaseTypeV::UserDef(n) => KT::Struct(n),
    }
}

pub open spec fn kt_of_type(t: TypeV) -> KT {
    match t {
        TypeV::Base(b) => kt_of_base(b),
        TypeV::Array(b) => KT::Array(Box::new(kt_of_base(b))),
    }
}

pub open spec fn kt_of_ret(r: ReturnTypeV) -> KT {
    match r {
        ReturnTypeV::Single(t) => kt_of_type(t),
        ReturnTypeV::Pair(a, b) => KT::Pair(Box::new(kt_of_type(a)), Box::new(kt_of_type(b))),
    }
}

/// The text of a type in messages: `:i32`, `:[:i32]`, `:Point`, `(:i32 :bool)`.
pub open spec fn kt_text(t: KT) -> Seq<char>
    decreases t,
{
    match t {
        KT::I32 => ":i32"@,
        KT::F64 => ":f64"@,
        KT::Str => ":str"@,
        KT::Bool => ":bool"@,
        KT::Void => ":void"@,
        KT::Array(e) => ":["@ + kt_text(*e) + "]"@,
        KT::Struct(n) => ":"@ + n,
        KT::Pair(a, b) => "("@ + kt_text(*a) + " "@ + kt_text(*b) + ")"@,
    }
}

fn write_kt(t: &KangType, out: &mut String)
    ensures
        final(out)@ == old(out)@ + kt_text(t@),
    decreases t,
{
    match t {
        KangType::I32 => push_str(out, ":i32"),
        KangType::F64 => push_str(out, ":f64"),
        KangType::Str => push_str(out, ":str"),
        KangType::Bool => push_str(out, ":bool"),
        KangType::Void => push_str(out, ":void"),
        KangType::Array(e) => {
            push_str(out, ":[");
            write_kt(&**e, out);
            push_str(out, "]");
        },
        KangType::Struct(n) => {
            push_str(out, ":");
            push_str(out, n.as_str());
        },
        KangType::Pair(a, b) => {
            push_str(out, "(");
            write_kt(&**a, out);
            push_str(out, " ");
            write_kt(&**b, out);
            push_str(out, ")");
        },
    }
}

impl KangType {
    /// The semantic type an annotation names.
    pub fn from_ast_type(ty: &Type) -> (r: KangType)
        ensures
            r@ == kt_of_type(ty@),
    {
        match ty {
            Type::Base(bt) => Self::from_ast_base_type(bt),
            Type::Array(bt) => KangType::Array(Box::new(Self::from_ast_base_type(bt))),
        }
    }

    pub fn from_ast_base_type(bt: &BaseType) -> (r: KangType)
        ensures
            r@ == kt_of_base(bt@),
    {
        match bt {
            BaseType::I32 => KangType::I32,
            BaseType::F64 => KangType::F64,
            BaseType::Str => KangType::Str,
            BaseType::Bool => KangType::Bool,
            BaseType::Void => KangType::Void,
            BaseType::UserDef(name) => KangType::Struct(name.clone()),
        }
    }

    /// The semantic type of a declared return type; two results make a pair.
    pub fn from_ast_return_type(rt: &ReturnType) -> (r: KangType)
        ensures
            r@ == kt_of_ret(rt@),
    {
        match rt {
            ReturnType::Single(ty) => Self::from_ast_type(ty),
            ReturnType::Pair(t1, t2) => KangType::Pair(
                Box::new(Self::from_ast_type(t1)),
                Box::new(Self::from_ast_type(t2)),
            ),
        }
    }

    pub fn is_void(&self) -> (r: bool)
        ensures
            r == (self@ is Void),
    {
        match self {
            KangType::Void => true,
            _ => false,
        }
    }

    /// The text of the type in messages (see `kt_text`).
    pub fn to_text(&self) -> (r: String)
        ensures
            r@ == kt_text(self@),
    {
        let mut out = String::new();
        write_kt(self, &mut out);
        out
    }
}


// ── The typed tree ──────────────────────────────────────────────────────

/// An expression with the type it evaluates to.
#[derive(Debug)]
pub struct TypedExpr {
    pub kind: TypedExprKind,
    pub ty: KangType,
}

#[derive(Debug)]
pub enum TypedExprKind {
    /// An `i32` literal as written.
    IntLit(String),
    /// An `f64` literal as written.
    FloatLit(String),
    /// A string literal, escapes resolved.
    StrLit(String),
    BoolLit(bool),
    Ident(String),
    Binary { left: Box<TypedExpr>, op: BinOp, right: Box<TypedExpr> },
    Unary { op: UnaryOp, expr: Box<TypedExpr> },
    /// A call of a user function or a builtin, by the name code generation uses.
    Call { func_name: String, args: Vec<TypedExpr> },
    Index { array: Box<TypedExpr>, index: Box<TypedExpr> },
    FieldAccess { obj: Box<TypedExpr>, field: String },
    ArrayLit(Vec<TypedExpr>),
    StructLit { name: String, fields: Vec<(String, TypedExpr)> },
}

/// A typed expression as a value.
pub struct TExprV {
    pub kind: TKindV,
    pub ty: KT,
}

pub enum TKindV {
    IntLit(Seq<char>),
    FloatLit(Seq<char>),
    StrLit(Seq<char>),
    BoolLit(bool),
    Ident(Seq<char>),
    Binary(Box<TExprV>, BinOp, Box<TExprV>),
    Unary(UnaryOp, Box<TExprV>),
    Call(Seq<char>, Seq<TExprV>),
    Index(Box<TExprV>, Box<TExprV>),
    Field(Box<TExprV>, Seq<char>),
    ArrayLit(Seq<TExprV>),
    StructLit(Seq<char>, Seq<(Seq<char>, TExprV)>),
}

pub open spec fn tev(e: &TypedExpr) -> TExprV
    decreases e,
{
    TExprV {
        kind: match &e.kind {
            TypedExprKind::IntLit(v) => TKindV::IntLit(v@),
            TypedExprKind::FloatLit(v) => TKindV::FloatLit(v@),
            TypedExprKind::StrLit(v) => TKindV::StrLit(v@),
            TypedExprKind::BoolLit(v) => TKindV::BoolLit(*v),
            TypedExprKind::Ident(v) => TKindV::Ident(v@),
            TypedExprKind::Binary { left, op, right } => TKindV::Binary(
                Box::new(tev(&**left)),
                *op,
                Box::new(tev(&**right)),
            ),
            TypedExprKind::Unary { op, expr } => TKindV::Unary(*op, Box::new(tev(&**expr))),
            TypedExprKind::Call { func_name, args } => TKindV::Call(func_name@, tevs(args@)),
            TypedExprKind::Index { array, index } => TKindV::Index(Box::new(tev(&**array)), Box::new(tev(&**index))),
            TypedExprKind::FieldAccess { obj, field } => TKindV::Field(Box::new(tev(&**obj)), field@),
            TypedExprKind::ArrayLit(v) => TKindV::ArrayLit(tevs(v@)),
            TypedExprKind::StructLit { name, fields } => TKindV::StructLit(name@, tevf(fields@)),
        },
        ty: e.ty@,
    }
}

pub open spec fn tevs(v: Seq<TypedExpr>) -> Seq<TExprV>
    decreases v,
{
    if v.len() == 0 {
        Seq::empty()
    } else {
        tevs(v.drop_last()).push(tev(&v.last()))
    }
}

pub open spec fn tevf(v: Seq<(String, TypedExpr)>) -> Seq<(Seq<char>, TExprV)>
    decreases v,
{
    if v.len() == 0 {
        Seq::empty()
    } else {
        tevf(v.drop_last()).push((v.last().0@, tev(&v.last().1)))
    }
}

impl View for TypedExpr {
    type V = TExprV;

    open spec fn view(&self) -> TExprV {
        tev(self)
    }
}

pub proof fn lemma_tevs(v: Seq<TypedExpr>)
    ensures
        tevs(v).len() == v.len(),
        forall|k: int| 0 <= k < v.len() ==> #[trigger] tevs(v)[k] == tev(&v[k]),
    decreases v.len(),
{
    if v.len() > 0 {
        lemma_tevs(v.drop_last());
    }
}

pub proof fn lemma_tevf(v: Seq<(String, TypedExpr)>)
    ensures
        tevf(v).len() == v.len(),
        forall|k: int| 0 <= k < v.len() ==> #[trigger] tevf(v)[k] == (v[k].0@, tev(&v[k].1)),
    decreases v.len(),
{
    if v.len() > 0 {
        lemma_tevf(v.drop_last());
    }
}

/// A statement with its expressions typed.
#[derive(Debug)]
pub struct TypedStmt {
    pub kind: TypedStmtKind,
}

#[derive(Debug)]
pub enum TypedStmtKind {
    /// A declaration: each binding as (name, type, is a discard `_`).
    VarDecl { bindings: Vec<(String, KangType, bool)>, init: Box<TypedExpr> },
    Assign { lvalue: LValue, value: Box<TypedExpr> },
    Return { values: Vec<TypedExpr> },
    If { condition: Box<TypedExpr>, then_branch: Box<TypedStmt>, else_branch: Option<Box<TypedStmt>> },
    For {
        var_name: String,
        var_type: KangType,
        start: Box<TypedExpr>,
        end: Box<TypedExpr>,
        step_lvalue: LValue,
        step_expr: Box<TypedExpr>,
        body: Box<TypedStmt>,
    },
    Expr(Box<TypedExpr>),
    Block(Vec<TypedStmt>),
}

pub enum TStmtV {
    VarDecl(Seq<(Seq<char>, KT, bool)>, TExprV),
    Assign(LValueV, TExprV),
    Return(Seq<TExprV>),
    If(TExprV, Box<TStmtV>, Option<Box<TStmtV>>),
    For(Seq<char>, KT, TExprV, TExprV, LValueV, TExprV, Box<TStmtV>),
    Expr(TExprV),
    Block(Seq<TStmtV>),
}

pub open spec fn typed_bindings(v: Seq<(String, KangType, bool)>) -> Seq<(Seq<char>, KT, bool)> {
    v.map_values(|b: (String, KangType, bool)| (b.0@, b.1@, b.2))
}

pub open spec fn tsv(s: &TypedStmt) -> TStmtV
    decreases s,
{
    match &s.kind {
        TypedStmtKind::VarDecl { bindings, init } => TStmtV::VarDecl(typed_bindings(bindings@), tev(&**init)),
        TypedStmtKind::Assign { lvalue, value } => TStmtV::Assign(lvalue@, tev(&**value)),
        TypedStmtKind::Return { values } => TStmtV::Return(tevs(values@)),
        TypedStmtKind::If { condition, then_branch, else_branch } => TStmtV::If(
            tev(&**condition),
            Box::new(tsv(&**then_branch)),
            match else_branch {
                Some(e) => Some(Box::new(tsv(&**e))),
                None => None,
            },
        ),
        TypedStmtKind::For { var_name, var_type, start, end, step_lvalue, step_expr, body } => TStmtV::For(
            var_name@,
            var_type@,
            tev(&**start),
            tev(&**end),
            step_lvalue@,
            tev(&**step_expr),
            Box::new(tsv(&**body)),
        ),
        TypedStmtKind::Expr(e) => TStmtV::Expr(tev(&**e)),
        TypedStmtKind::Block(v) => TStmtV::Block(tsvs(v@)),
    }
}

pub open spec fn tsvs(v: Seq<TypedStmt>) -> Seq<TStmtV>
    decreases v,
{
    if v.len() == 0 {
        Seq::empty()
    } else {
        tsvs(v.drop_last()).push(tsv(&v.last()))
    }
}

impl View for TypedStmt {
    type V = TStmtV;

    open spec fn view(&self) -> TStmtV {
        tsv(self)
    }
}

pub proof fn lemma_tsvs(v: Seq<TypedStmt>)
    ensures
        tsvs(v).len() == v.len(),
        forall|k: int| 0 <= k < v.len() ==> #[trigger] tsvs(v)[k] == tsv(&v[k]),
    decreases v.len(),
{
    if v.len() > 0 {
        lemma_tsvs(v.drop_last());
    }
}

/// A function with its parameters and return type resolved and its body typed.
#[derive(Debug)]
pub struct TypedFuncDef {
    pub name: String,
    pub params: Vec<(String, KangType)>,
    pub return_type: KangType,
    pub body: Vec<TypedStmt>,
}

/// A top-level item of a typed program; structs are kept as written.
#[derive(Debug)]
pub enum TypedTopLevel {
    Struct(StructDef),
    Func(TypedFuncDef),
}

/// The checker's result and the code generator's input.
#[derive(Debug)]
pub struct TypedProgram {
    pub items: Vec<TypedTopLevel>,
}

pub struct TFuncV {
    pub name: Seq<char>,
    pub params: Seq<(Seq<char>, KT)>,
    pub ret: KT,
    pub body: Seq<TStmtV>,
}

pub enum TTopV {
    Struct(StructDefV),
    Func(TFuncV),
}

pub open spec fn typed_params(v: Seq<(String, KangType)>) -> Seq<(Seq<char>, KT)> {
    v.map_values(|p: (String, KangType)| (p.0@, p.1@))
}

impl View for TypedFuncDef {
    type V = TFuncV;

    open spec fn view(&self) -> TFuncV {
        TFuncV { name: self.name@, params: typed_params(self.params@), ret: self.return_type@, body: tsvs(self.body@) }
    }
}

impl View for TypedTopLevel {
    type V = TTopV;

    open spec fn view(&self) -> TTopV {
        match self {
            TypedTopLevel::Struct(s) => TTopV::Struct(s@),
            TypedTopLevel::Func(f) => TTopV::Func(f@),
        }
    }
}

impl View for TypedProgram {
    type V = Seq<TTopV>;

    open spec fn view(&self) -> Seq<TTopV> {
        self.items@.map_values(|t: TypedTopLevel| t@)
    }
}

} // verus!
