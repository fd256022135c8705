//! Decisions of code generation that depend on types alone: which runtime
//! function an overloaded conversion calls, how an operator is carried out
//! and which run-time checks guard it, how a value is passed to the C
//! runtime, and how many bytes a value of a type takes and on what boundary
//! it is aligned.

use vstd::prelude::*;
use crate::ast::{BinOp, Expr, ExprV, LValue, LValueV, UnaryOp};
use crate::semantic::types::{KangType, TypedExpr, KT};
use crate::text::{same_text, string_of, text_eq};

verus! {

/// A pair stands for its first value where one value is wanted.
pub open spec fn pair_first(t: KT) -> KT {
    match t {
        KT::Pair(first, _) => *first,
        other => other,
    }
}

/// The runtime name of the conversion `name` (`str`, `i32`, `f64`, `bool`)
/// applied to a first argument of type `first`; any other call keeps its name.
pub open spec fn overload_name(name: Seq<char>, first: Option<KT>) -> Seq<char> {
    match first {
        None => name,
        Some(t) => {
            let f = pair_first(t);
            if name == "str"@ {
                match f {
                    KT::I32 => "str_i32"@,
                    KT::F64 => "str_f64"@,
                    KT::Bool => "str_bool"@,
                    _ => name,
                }
            } else if name == "i32"@ {
                match f {
                    KT::Str => "i32_str"@,
                    KT::F64 => "i32_f64"@,
                    _ => name,
                }
            } else if name == "f64"@ {
                match f {
                    KT::Str => "f64_str"@,
                    KT::I32 => "f64_i32"@,
                    _ => name,
                }
            } else if name == "bool"@ {
                match f {
                    KT::Str => "bool_str"@,
                    _ => name,
                }
            } else {
                name
            }
        },
    }
}

/// The first value's type of a pair, the type itself otherwise.
pub fn unpack_pair_first(ty: &KangType) -> (r: &KangType)
    ensures
        r@ == pair_first(ty@),
{
    match ty {
        KangType::Pair(first, _) => &**first,
        other => other,
    }
}

/// The name under which a call of `func_name` with `args` reaches the
/// runtime: a conversion is resolved by the type of its first argument.
pub fn resolve_overloaded_name(func_name: &str, args: &[TypedExpr]) -> (r: String)
    ensures
        r@ == overload_name(func_name@, if args@.len() == 0 { None } else { Some(args@[0]@.ty) }),
{
    if args.len() == 0 {
        return string_of(func_name);
    }
    let first_ty = unpack_pair_first(&args[0].ty);
    if text_eq(func_name, "str") {
        match first_ty {
            KangType::I32 => string_of("str_i32"),
            KangType::F64 => string_of("str_f64"),
            KangType::Bool => string_of("str_bool"),
            _ => string_of(func_name),
        }
    } else if text_eq(func_name, "i32") {
        match first_ty {
            KangType::Str => string_of("i32_str"),
            KangType::F64 => string_of("i32_f64"),
            _ => string_of(func_name),
        }
    } else if text_eq(func_name, "f64") {
        match first_ty {
            KangType::Str => string_of("f64_str"),
            KangType::I32 => string_of("f64_i32"),
            _ => string_of(func_name),
        }
    } else if text_eq(func_name, "bool") {
        match first_ty {
            KangType::Str => string_of("bool_str"),
            _ => string_of(func_name),
        }
    } else {
        string_of(func_name)
    }
}

// ── Operators ───────────────────────────────────────────────────────────

/// What kind of machine value stands for a value of a type: integers and
/// booleans are integers, `f64` a float, the rest aggregates.
pub enum ValueKind {
    Int,
    Float,
    Aggregate,
}

pub open spec fn value_kind(t: KT) -> ValueKind {
    match t {
        KT::I32 => ValueKind::Int,
        KT::Bool => ValueKind::Int,
        KT::F64 => ValueKind::Float,
        _ => ValueKind::Aggregate,
    }
}

/// The operations that need numbers and got something else.
#[derive(Debug, Clone, Copy, PartialEq, Eq, Structural)]
pub enum OperandError {
    /// `+ - *` on neither integers nor floats.
    Arith,
    /// `/` on neither integers nor floats.
    Div,
    /// A comparison on neither integers nor floats.
    Compare,
    /// `-x` on neither an integer nor a float.
    Neg,
}

impl OperandError {
    /// The message code generation reports.
    pub fn message(&self) -> (r: String)
        ensures
            r@ == match *self {
                OperandError::Arith => "算术运算仅支持 i32/f64"@,
                OperandError::Div => "除法仅支持 i32/f64"@,
                OperandError::Compare => "比较运算仅支持 i32/f64"@,
                OperandError::Neg => "取负仅支持 i32/f64"@,
            },
    {
        match self {
            OperandError::Arith => string_of("算术运算仅支持 i32/f64"),
            OperandError::Div => string_of("除法仅支持 i32/f64"),
            OperandError::Compare => string_of("比较运算仅支持 i32/f64"),
            OperandError::Neg => string_of("取负仅支持 i32/f64"),
        }
    }
}

/// How a binary operation is carried out.
#[derive(Debug, Clone, Copy, PartialEq, Eq, Structural)]
pub enum BinaryLowering {
    /// `+` with a string side: both sides made strings, then the runtime's
    /// concatenation.
    StrConcat,
    /// `==` on strings, or with `negate` `!=`: compared byte by byte.
    StrEq { negate: bool },
    /// The integer form of `+ - *` or of a comparison.
    Int(BinOp),
    /// The floating-point form of `+ - *` or of a comparison.
    Float(BinOp),
    /// Integer division, after a check against zero and one against
    /// `INT_MIN / -1`.
    IntDivChecked,
    /// Floating-point division, after a check against zero.
    FloatDivChecked,
    /// `&&` or `||` on booleans, both sides evaluated.
    Logical(BinOp),
    /// The operands are not of a kind the operation takes.
    Unsupported(OperandError),
}

/// How `op` is carried out on operands of types `l` and `r`.
pub open spec fn binary_plan(op: BinOp, l: KT, r: KT) -> BinaryLowering {
    if op == BinOp::Add && (l == KT::Str || r == KT::Str) {
        BinaryLowering::StrConcat
    } else if op == BinOp::Eq && l == KT::Str {
        BinaryLowering::StrEq { negate: false }
    } else if op == BinOp::Neq && l == KT::Str {
        BinaryLowering::StrEq { negate: true }
    } else {
        match op {
            BinOp::Add | BinOp::Sub | BinOp::Mul => match value_kind(l) {
                ValueKind::Int => BinaryLowering::Int(op),
                ValueKind::Float => BinaryLowering::Float(op),
                ValueKind::Aggregate => BinaryLowering::Unsupported(OperandError::Arith),
            },
            BinOp::Div => match value_kind(l) {
                ValueKind::Int => BinaryLowering::IntDivChecked,
                ValueKind::Float => BinaryLowering::FloatDivChecked,
                ValueKind::Aggregate => BinaryLowering::Unsupported(OperandError::Div),
            },
            BinOp::And | BinOp::Or => BinaryLowering::Logical(op),
            _ => match value_kind(l) {
                ValueKind::Int => BinaryLowering::Int(op),
                ValueKind::Float => BinaryLowering::Float(op),
                ValueKind::Aggregate => BinaryLowering::Unsupported(OperandError::Compare),
            },
        }
    }
}

fn is_str(t: &KangType) -> (r: bool)
    ensures
        r == (t@ == KT::Str),
{
    match t {
        KangType::Str => true,
        _ => false,
    }
}

fn kind_of(t: &KangType) -> (r: ValueKind)
    ensures
        r == value_kind(t@),
{
    match t {
        KangType::I32 | KangType::Bool => ValueKind::Int,
        KangType::F64 => ValueKind::Float,
        _ => ValueKind::Aggregate,
    }
}

/// How `op` is carried out on a left operand of type `left` and a right one
/// of type `right`.
pub fn lower_binary(op: BinOp, left: &KangType, right: &KangType) -> (r: BinaryLowering)
    ensures
        r == binary_plan(op, left@, right@),
{
    if op == BinOp::Add && (is_str(left) || is_str(right)) {
        return BinaryLowering::StrConcat;
    }
    if op == BinOp::Eq && is_str(left) {
        return BinaryLowering::StrEq { negate: false };
    }
    if op == BinOp::Neq && is_str(left) {
        return BinaryLowering::StrEq { negate: true };
    }
    match op {
        BinOp::Add | BinOp::Sub | BinOp::Mul => match kind_of(left) {
            ValueKind::Int => BinaryLowering::Int(op),
            ValueKind::Float => BinaryLowering::Float(op),
            ValueKind::Aggregate => BinaryLowering::Unsupported(OperandError::Arith),
        },
        BinOp::Div => match kind_of(left) {
            ValueKind::Int => BinaryLowering::IntDivChecked,
            ValueKind::Float => BinaryLowering::FloatDivChecked,
            ValueKind::Aggregate => BinaryLowering::Unsupported(OperandError::Div),
        },
        BinOp::And | BinOp::Or => BinaryLowering::Logical(op),
        _ => match kind_of(left) {
            ValueKind::Int => BinaryLowering::Int(op),
            ValueKind::Float => BinaryLowering::Float(op),
            ValueKind::Aggregate => BinaryLowering::Unsupported(OperandError::Compare),
        },
    }
}

/// A division is never carried out unchecked: on integers it is guarded
/// against zero and against `INT_MIN / -1`, on floats against zero, and on
/// anything else it is refused.
pub proof fn law_division_is_checked(l: KT, r: KT)
    ensures
        binary_plan(BinOp::Div, l, r) == match value_kind(l) {
            ValueKind::Int => BinaryLowering::IntDivChecked,
            ValueKind::Float => BinaryLowering::FloatDivChecked,
            ValueKind::Aggregate => BinaryLowering::Unsupported(OperandError::Div),
        },
{
}

/// How a unary operation is carried out.
#[derive(Debug, Clone, Copy, PartialEq, Eq, Structural)]
pub enum UnaryLowering {
    IntNeg,
    FloatNeg,
    /// `!b`, as `b == false`.
    Not,
    Unsupported(OperandError),
}

pub open spec fn unary_plan(op: UnaryOp, t: KT) -> UnaryLowering {
    match op {
        UnaryOp::Neg => match value_kind(t) {
            ValueKind::Int => UnaryLowering::IntNeg,
            ValueKind::Float => UnaryLowering::FloatNeg,
            ValueKind::Aggregate => UnaryLowering::Unsupported(OperandError::Neg),
        },
        UnaryOp::Not => UnaryLowering::Not,
    }
}

/// How `op` is carried out on an operand of type `t`.
pub fn lower_unary(op: UnaryOp, t: &KangType) -> (r: UnaryLowering)
    ensures
        r == unary_plan(op, t@),
{
    match op {
        UnaryOp::Neg => match kind_of(t) {
            ValueKind::Int => UnaryLowering::IntNeg,
            ValueKind::Float => UnaryLowering::FloatNeg,
            ValueKind::Aggregate => UnaryLowering::Unsupported(OperandError::Neg),
        },
        UnaryOp::Not => UnaryLowering::Not,
    }
}

// ── Indexing and assignment targets ─────────────────────────────────────

/// How `a[i]` is read.
#[derive(Debug, Clone, Copy, PartialEq, Eq, Structural)]
pub enum IndexLowering {
    /// A byte of a string: its data has no header; the index is checked
    /// against the length first.
    CheckedStrByte,
    /// An element of an array: its data starts after a 4-byte length
    /// header; the index is checked against the length first.
    CheckedArrayElement,
    /// Not a string or an array.
    Unsupported,
}

pub open spec fn index_plan(container: KT) -> IndexLowering {
    match container {
        KT::Str => IndexLowering::CheckedStrByte,
        KT::Array(_) => IndexLowering::CheckedArrayElement,
        _ => IndexLowering::Unsupported,
    }
}

/// How `a[i]` is read when `a` has type `container`.
pub fn lower_index(container: &KangType) -> (r: IndexLowering)
    ensures
        r == index_plan(container@),
{
    match container {
        KangType::Str => IndexLowering::CheckedStrByte,
        KangType::Array(_) => IndexLowering::CheckedArrayElement,
        _ => IndexLowering::Unsupported,
    }
}

/// No index is read unchecked: a string or an array index is checked
/// against the length before the access, and anything else is refused.
pub proof fn law_index_is_checked(t: KT)
    ensures
        index_plan(t) != IndexLowering::Unsupported <==> (t == KT::Str || t is Array),
        index_plan(t) == IndexLowering::Unsupported || index_plan(t) == IndexLowering::CheckedStrByte
            || index_plan(t) == IndexLowering::CheckedArrayElement,
{
}

/// Where an assignment stores, as far as the target's form decides it.
#[derive(Debug)]
pub enum AssignTarget {
    /// A variable.
    Variable(String),
    /// An element of the array variable `array`, at the position the
    /// variable or the integer literal `index` gives.
    Element { array: String, index: IndexSource },
    /// A field of the struct variable `object`.
    Field { object: String, field: String },
    /// A form that is not supported, with the reason.
    Unsupported(&'static str),
}

/// The index of an element assignment.
#[derive(Debug)]
pub enum IndexSource {
    Variable(String),
    Literal(String),
}

pub enum AssignTargetV {
    Variable(Seq<char>),
    Element(Seq<char>, Result<Seq<char>, Seq<char>>),
    Field(Seq<char>, Seq<char>),
    Unsupported(Seq<char>),
}

impl View for AssignTarget {
    type V = AssignTargetV;

    open spec fn view(&self) -> AssignTargetV {
        match self {
            AssignTarget::Variable(n) => AssignTargetV::Variable(n@),
            AssignTarget::Element { array, index } => AssignTargetV::Element(array@, match index {
                IndexSource::Variable(v) => Ok(v@),
                IndexSource::Literal(v) => Err(v@),
            }),
            AssignTarget::Field { object, field } => AssignTargetV::Field(object@, field@),
            AssignTarget::Unsupported(m) => AssignTargetV::Unsupported(m@),
        }
    }
}

/// The target of an assignment to `l`: the array and the struct must be
/// named by a variable, and an element's index must be a variable or an
/// integer literal (`Ok` a variable, `Err` a literal's text).
pub open spec fn assign_plan(l: LValueV) -> AssignTargetV {
    match l {
        LValueV::Ident(n, _) => AssignTargetV::Variable(n),
        LValueV::Index(a, i, _) => match a {
            ExprV::Ident(an, _) => match i {
                ExprV::Ident(v, _) => AssignTargetV::Element(an, Ok(v)),
                ExprV::IntLit(v, _) => AssignTargetV::Element(an, Err(v)),
                _ => AssignTargetV::Unsupported("左值中不支持的表达式类型"@),
            },
            _ => AssignTargetV::Unsupported("数组索引左值必须是变量"@),
        },
        LValueV::Field(o, f, _) => match o {
            ExprV::Ident(on, _) => AssignTargetV::Field(on, f),
            _ => AssignTargetV::Unsupported("字段访问左值必须是变量"@),
        },
    }
}

/// Where an assignment to `l` stores (see `assign_plan`).
pub fn lower_assign_target(l: &LValue) -> (r: AssignTarget)
    ensures
        r@ == assign_plan(l@),
{
    match l {
        LValue::Ident(n, _) => AssignTarget::Variable(n.clone()),
        LValue::Index { array, index, .. } => match &**array {
            Expr::Ident(an, _) => match &**index {
                Expr::Ident(v, _) => AssignTarget::Element { array: an.clone(), index: IndexSource::Variable(v.clone()) },
                Expr::IntLit(v, _) => AssignTarget::Element { array: an.clone(), index: IndexSource::Literal(v.clone()) },
                _ => AssignTarget::Unsupported("左值中不支持的表达式类型"),
            },
            _ => AssignTarget::Unsupported("数组索引左值必须是变量"),
        },
        LValue::FieldAccess { obj, field, .. } => match &**obj {
            Expr::Ident(on, _) => AssignTarget::Field { object: on.clone(), field: field.clone() },
            _ => AssignTarget::Unsupported("字段访问左值必须是变量"),
        },
    }
}

// ── Calls into the C runtime ────────────────────────────────────────────

/// How an argument reaches a function of the C runtime.
#[derive(Debug, Clone, Copy, PartialEq, Eq, Structural)]
pub enum ArgPassing {
    /// A string or an array goes as its pointer and its length.
    PtrAndLen,
    /// A pair goes as its first value.
    FirstOfPair,
    /// A boolean goes widened to 32 bits.
    BoolAsI32,
    /// Anything else goes as it is.
    AsIs,
}

pub open spec fn passing_of(t: KT) -> ArgPassing {
    match t {
        KT::Str => ArgPassing::PtrAndLen,
        KT::Array(_) => ArgPassing::PtrAndLen,
        KT::Pair(_, _) => ArgPassing::FirstOfPair,
        KT::Bool => ArgPassing::BoolAsI32,
        _ => ArgPassing::AsIs,
    }
}

/// How an argument of type `t` is passed to the C runtime.
pub fn c_abi_passing(t: &KangType) -> (r: ArgPassing)
    ensures
        r == passing_of(t@),
{
    match t {
        KangType::Str | KangType::Array(_) => ArgPassing::PtrAndLen,
        KangType::Pair(_, _) => ArgPassing::FirstOfPair,
        KangType::Bool => ArgPassing::BoolAsI32,
        _ => ArgPassing::AsIs,
    }
}

/// How a side of a string concatenation becomes a string.
#[derive(Debug, Clone, Copy, PartialEq, Eq, Structural)]
pub enum StrConversion {
    /// It is one already (or is left as it is).
    Keep,
    /// Through the runtime's `k_str_i32`.
    FromI32,
    /// Through the runtime's `k_str_f64`.
    FromF64,
    /// Widened to 32 bits, then through the runtime's `k_str_bool`.
    FromBool,
}

pub open spec fn conversion_of(t: KT) -> StrConversion {
    match t {
        KT::I32 => StrConversion::FromI32,
        KT::F64 => StrConversion::FromF64,
        KT::Bool => StrConversion::FromBool,
        _ => StrConversion::Keep,
    }
}

/// How a value of type `t` becomes a string for a concatenation.
pub fn str_conversion(t: &KangType) -> (r: StrConversion)
    ensures
        r == conversion_of(t@),
{
    match t {
        KangType::I32 => StrConversion::FromI32,
        KangType::F64 => StrConversion::FromF64,
        KangType::Bool => StrConversion::FromBool,
        _ => StrConversion::Keep,
    }
}

/// How a pair comes back from the C runtime, to be rebuilt as a Kang pair.
#[derive(Debug, Clone, Copy, PartialEq, Eq, Structural)]
pub enum PairReturn {
    /// `(str, bool)`: a pointer and a 64-bit word holding the flag in its
    /// high half and the length in its low half.
    StrBool,
    /// `(i32, bool)`: one 64-bit word, the flag high and the value low.
    IntBool,
    /// `(f64, bool)`: the float and the flag in a 64-bit word.
    FloatBool,
    /// `(bool, bool)`: one 64-bit word, the flag high and the value low.
    BoolBool,
    /// Anything else comes back as it is.
    AsIs,
}

pub open spec fn pair_return_of(t: KT) -> PairReturn {
    match t {
        KT::Pair(a, b) => if *b == KT::Bool {
            match *a {
                KT::Str => PairReturn::StrBool,
                KT::I32 => PairReturn::IntBool,
                KT::F64 => PairReturn::FloatBool,
                KT::Bool => PairReturn::BoolBool,
                _ => PairReturn::AsIs,
            }
        } else {
            PairReturn::AsIs
        },
        _ => PairReturn::AsIs,
    }
}

/// How a value of the return type `t` comes back from the C runtime.
pub fn pair_return(t: &KangType) -> (r: PairReturn)
    ensures
        r == pair_return_of(t@),
{
    proof {
        reveal_with_fuel(crate::semantic::types::kt, 3);
    }
    match t {
        KangType::Pair(a, b) => match &**b {
            KangType::Bool => match &**a {
                KangType::Str => PairReturn::StrBool,
                KangType::I32 => PairReturn::IntBool,
                KangType::F64 => PairReturn::FloatBool,
                KangType::Bool => PairReturn::BoolBool,
                _ => PairReturn::AsIs,
            },
            _ => PairReturn::AsIs,
        },
        _ => PairReturn::AsIs,
    }
}

// ── Storage layout ──────────────────────────────────────────────────────
//
// Scalars have fixed sizes; a string or an array is a pointer and a length
// (16 bytes, aligned on 8).  A struct lays its fields out in order, each on
// its own alignment, and is padded to the largest field alignment (8 for a
// struct without fields); a pair is laid out as a struct of two fields.

/// The fields (name and type) of each struct, by struct name.
pub type TableV = Seq<(Seq<char>, Seq<KT>)>;

/// The field types of the first struct named `n` in the table.
pub open spec fn fields_of(tv: TableV, n: Seq<char>) -> Option<Seq<KT>>
    decreases tv.len(),
{
    if tv.len() == 0 {
        None
    } else if tv[0].0 == n {
        Some(tv[0].1)
    } else {
        fields_of(tv.subrange(1, tv.len() as int), n)
    }
}

/// The names of the structs in the table.
pub open spec fn names(tv: TableV) -> Set<Seq<char>> {
    tv.map_values(|e: (Seq<char>, Seq<KT>)| e.0).to_set()
}

pub open spec fn max_nat(a: nat, b: nat) -> nat {
    if a >= b { a } else { b }
}

/// `x` rounded up to a multiple of `a`.
pub open spec fn round_up(x: nat, a: nat) -> nat {
    if a == 0 {
        x
    } else {
        ((x + a - 1) as nat / a) * a
    }
}

/// Every struct that `t` holds by value (not behind an array) is in the
/// table and among `open`, and no struct holds itself, however deep.
/// `open` is the set of structs not yet entered on the way down.
pub open spec fn laid_out(tv: TableV, open: Set<Seq<char>>, t: KT) -> bool
    decreases open.len(), t,
{
    match t {
        KT::Pair(a, b) => laid_out(tv, open, *a) && laid_out(tv, open, *b),
        KT::Struct(n) => {
            &&& open.finite()
            &&& open.contains(n)
            &&& fields_of(tv, n) is Some
            &&& fields_laid_out(tv, open.remove(n), fields_of(tv, n)->0)
        },
        _ => true,
    }
}

pub open spec fn fields_laid_out(tv: TableV, open: Set<Seq<char>>, fs: Seq<KT>) -> bool
    decreases open.len(), fs,
{
    if fs.len() == 0 {
        true
    } else {
        fields_laid_out(tv, open, fs.subrange(0, fs.len() - 1)) && laid_out(tv, open, fs[fs.len() - 1])
    }
}

/// The alignment, in bytes, of a value of type `t`.
pub open spec fn align_v(tv: TableV, open: Set<Seq<char>>, t: KT) -> nat
    decreases open.len(), t,
{
    match t {
        KT::I32 => 4,
        KT::F64 => 8,
        KT::Bool => 1,
        KT::Str => 8,
        KT::Array(_) => 8,
        KT::Void => 1,
        KT::Pair(a, b) => max_nat(align_v(tv, open, *a), align_v(tv, open, *b)),
        KT::Struct(n) => if open.finite() && open.contains(n) && fields_of(tv, n) is Some {
            fields_align(tv, open.remove(n), fields_of(tv, n)->0)
        } else {
            8
        },
    }
}

/// The largest alignment of the field types `fs`, 8 when there are none.
pub open spec fn fields_align(tv: TableV, open: Set<Seq<char>>, fs: Seq<KT>) -> nat
    decreases open.len(), fs,
{
    if fs.len() == 0 {
        8
    } else if fs.len() == 1 {
        align_v(tv, open, fs[0])
    } else {
        max_nat(fields_align(tv, open, fs.subrange(0, fs.len() - 1)), align_v(tv, open, fs[fs.len() - 1]))
    }
}

/// The size, in bytes, of a value of type `t`.
pub open spec fn size_v(tv: TableV, open: Set<Seq<char>>, t: KT) -> nat
    decreases open.len(), t,
{
    match t {
        KT::I32 => 4,
        KT::F64 => 8,
        KT::Bool => 1,
        KT::Str => 16,
        KT::Array(_) => 16,
        KT::Void => 0,
        KT::Pair(a, b) => {
            let a2 = align_v(tv, open, *b);
            let second = round_up(size_v(tv, open, *a), a2);
            round_up(second + size_v(tv, open, *b), max_nat(align_v(tv, open, *a), a2))
        },
        KT::Struct(n) => if open.finite() && open.contains(n) && fields_of(tv, n) is Some {
            let inner = open.remove(n);
            let fs = fields_of(tv, n)->0;
            round_up(fields_end(tv, inner, fs), fields_align(tv, inner, fs))
        } else {
            0
        },
    }
}

/// Where the last of the fields `fs`, laid out in order, ends.
pub open spec fn fields_end(tv: TableV, open: Set<Seq<char>>, fs: Seq<KT>) -> nat
    decreases open.len(), fs,
{
    if fs.len() == 0 {
        0
    } else {
        let last = fs[fs.len() - 1];
        round_up(fields_end(tv, open, fs.subrange(0, fs.len() - 1)), align_v(tv, open, last)) + size_v(
            tv,
            open,
            last,
        )
    }
}

pub proof fn lemma_round_up(x: nat, a: nat)
    requires
        a >= 1,
    ensures
        x <= round_up(x, a),
        round_up(x, a) + 1 <= x + a,
        round_up(x, a) % a == 0,
{
    let y = (x + a - 1) as nat;
    let q = y / a;
    vstd::arithmetic::div_mod::lemma_fundamental_div_mod(y as int, a as int);
    assert(y == a * q + y % a);
    assert(0 <= y % a < a) by {
        vstd::arithmetic::div_mod::lemma_mod_bound(y as int, a as int);
    }
    assert(q * a == a * q) by (nonlinear_arith);
    vstd::arithmetic::div_mod::lemma_mod_multiples_basic(q as int, a as int);
}

/// Alignments are between 1 and 8 bytes.
pub proof fn lemma_align_range(tv: TableV, open: Set<Seq<char>>, t: KT)
    ensures
        1 <= align_v(tv, open, t) <= 8,
    decreases open.len(), t,
{
    match t {
        KT::Pair(a, b) => {
            lemma_align_range(tv, open, *a);
            lemma_align_range(tv, open, *b);
        },
        KT::Struct(n) => {
            if open.finite() && open.contains(n) && fields_of(tv, n) is Some {
                lemma_fields_align_range(tv, open.remove(n), fields_of(tv, n)->0);
            }
        },
        _ => {},
    }
}

pub proof fn lemma_fields_align_range(tv: TableV, open: Set<Seq<char>>, fs: Seq<KT>)
    ensures
        1 <= fields_align(tv, open, fs) <= 8,
    decreases open.len(), fs,
{
    if fs.len() == 1 {
        lemma_align_range(tv, open, fs[0]);
    } else if fs.len() > 1 {
        lemma_fields_align_range(tv, open, fs.subrange(0, fs.len() - 1));
        lemma_align_range(tv, open, fs[fs.len() - 1]);
    }
}

/// Every size is a multiple of the alignment of its type.
pub proof fn law_size_is_aligned(tv: TableV, open: Set<Seq<char>>, t: KT)
    ensures
        size_v(tv, open, t) % align_v(tv, open, t) == 0,
{
    lemma_align_range(tv, open, t);
    match t {
        KT::Pair(a, b) => {
            lemma_align_range(tv, open, *a);
            lemma_align_range(tv, open, *b);
            let a2 = align_v(tv, open, *b);
            let m = max_nat(align_v(tv, open, *a), a2);
            let second = round_up(size_v(tv, open, *a), a2);
            let x = second + size_v(tv, open, *b);
            lemma_round_up(x, m);
            assert(round_up(x, m) % m == 0);
            assert(size_v(tv, open, t) == round_up(x, m));
            assert(align_v(tv, open, t) == m);
            assert(size_v(tv, open, t) % align_v(tv, open, t) == round_up(x, m) % m);
        },
        KT::Struct(n) => {
            if open.finite() && open.contains(n) && fields_of(tv, n) is Some {
                let inner = open.remove(n);
                let fs = fields_of(tv, n)->0;
                lemma_fields_align_range(tv, inner, fs);
                lemma_round_up(fields_end(tv, inner, fs), fields_align(tv, inner, fs));
                assert(size_v(tv, open, t) == round_up(fields_end(tv, inner, fs), fields_align(tv, inner, fs)));
                assert(align_v(tv, open, t) == fields_align(tv, inner, fs));
            } else {
                assert(size_v(tv, open, t) == 0);
                assert(0nat % 8nat == 0) by (nonlinear_arith);
            }
        },
        KT::Str => {
            assert(16nat % 8nat == 0) by (nonlinear_arith);
        },
        KT::Array(_) => {
            assert(16nat % 8nat == 0) by (nonlinear_arith);
        },
        KT::F64 => {
            assert(8nat % 8nat == 0) by (nonlinear_arith);
        },
        KT::I32 => {
            assert(4nat % 4nat == 0) by (nonlinear_arith);
        },
        KT::Bool => {
            assert(1nat % 1nat == 0) by (nonlinear_arith);
        },
        KT::Void => {
            assert(0nat % 1nat == 0) by (nonlinear_arith);
        },
    }
}

/// The fields laid out so far end no later than all of them do, and each
/// field's size fits before that end.
pub proof fn lemma_fields_end_mono(tv: TableV, open: Set<Seq<char>>, fs: Seq<KT>, k: nat)
    requires
        k <= fs.len(),
    ensures
        fields_end(tv, open, fs.subrange(0, k as int)) <= fields_end(tv, open, fs),
        k < fs.len() ==> size_v(tv, open, fs[k as int]) <= fields_end(tv, open, fs),
    decreases fs.len() - k,
{
    let n = fs.len();
    if n > 0 {
        let pre = fs.subrange(0, n - 1);
        lemma_align_range(tv, open, fs[n - 1]);
        lemma_round_up(fields_end(tv, open, pre), align_v(tv, open, fs[n - 1]));
        if k < n {
            assert(pre.subrange(0, k as int) =~= fs.subrange(0, k as int));
            if k < n - 1 {
                lemma_fields_end_mono(tv, open, pre, k);
                assert(pre[k as int] == fs[k as int]);
            }
        } else {
            assert(fs.subrange(0, k as int) =~= fs);
        }
    }
}

/// Each field of a laid-out list is laid out.
pub proof fn lemma_fields_each(tv: TableV, open: Set<Seq<char>>, fs: Seq<KT>, k: nat)
    requires
        fields_laid_out(tv, open, fs),
        k < fs.len(),
    ensures
        laid_out(tv, open, fs[k as int]),
        fields_laid_out(tv, open, fs.subrange(0, k as int)),
    decreases fs.len(),
{
    let n = fs.len();
    let pre = fs.subrange(0, n - 1);
    if k < n - 1 {
        lemma_fields_each(tv, open, pre, k);
        assert(pre[k as int] == fs[k as int]);
        assert(pre.subrange(0, k as int) =~= fs.subrange(0, k as int));
    } else {
        assert(pre =~= fs.subrange(0, k as int));
    }
}

// ── The table of struct fields ──────────────────────────────────────────

/// The fields of each struct that code generation knows, in the order the
/// structs were registered.
pub struct StructTable {
    pub entries: Vec<(String, Vec<(String, KangType)>)>,
}

/// The names of a list of fields.
pub open spec fn field_names(fs: Seq<(String, KangType)>) -> Seq<Seq<char>> {
    Seq::new(fs.len(), |j: int| fs[j].0@)
}

/// The types of a list of fields.
pub open spec fn field_types(fs: Seq<(String, KangType)>) -> Seq<KT> {
    Seq::new(fs.len(), |j: int| fs[j].1@)
}

impl View for StructTable {
    type V = TableV;

    open spec fn view(&self) -> TableV {
        Seq::new(self.entries@.len(), |i: int| (self.entries@[i].0@, field_types(self.entries@[i].1@)))
    }
}

/// The structs whose names stand on `path`.
pub open spec fn path_set(path: Seq<String>) -> Set<Seq<char>> {
    Set::new(|n: Seq<char>| exists|i: int| 0 <= i < path.len() && path[i]@ == n)
}

/// The first entry named `n` is at `i`.
pub proof fn lemma_fields_of_at(tv: TableV, n: Seq<char>, i: nat)
    requires
        i < tv.len(),
        tv[i as int].0 == n,
        forall|j: int| 0 <= j < i ==> tv[j].0 != n,
    ensures
        fields_of(tv, n) == Some(tv[i as int].1),
    decreases i,
{
    if i > 0 {
        let rest = tv.subrange(1, tv.len() as int);
        assert(tv[0].0 != n);
        assert forall|j: int| 0 <= j < i - 1 implies rest[j].0 != n by {
            assert(rest[j] == tv[j + 1]);
        }
        lemma_fields_of_at(rest, n, (i - 1) as nat);
    }
}

/// No entry is named `n`.
pub proof fn lemma_fields_of_none(tv: TableV, n: Seq<char>)
    requires
        forall|j: int| 0 <= j < tv.len() ==> tv[j].0 != n,
    ensures
        fields_of(tv, n) is None,
    decreases tv.len(),
{
    if tv.len() > 0 {
        let rest = tv.subrange(1, tv.len() as int);
        assert forall|j: int| 0 <= j < rest.len() implies rest[j].0 != n by {
            assert(rest[j] == tv[j + 1]);
        }
        lemma_fields_of_none(rest, n);
    }
}

/// A name is in the table exactly when some entry carries it.
pub proof fn lemma_names(tv: TableV, n: Seq<char>)
    ensures
        names(tv).contains(n) <==> exists|j: int| 0 <= j < tv.len() && tv[j].0 == n,
        names(tv).finite(),
{
    let m = tv.map_values(|e: (Seq<char>, Seq<KT>)| e.0);
    vstd::seq_lib::seq_to_set_is_finite(m);
    if names(tv).contains(n) {
        assert(m.contains(n));
        let j = choose|j: int| 0 <= j < m.len() && m[j] == n;
        assert(tv[j].0 == n);
    }
    if exists|j: int| 0 <= j < tv.len() && tv[j].0 == n {
        let j = choose|j: int| 0 <= j < tv.len() && tv[j].0 == n;
        assert(m[j] == n);
        assert(m.contains(n));
    }
}

/// Whether `name` stands on `path`.
fn on_path(path: &Vec<String>, name: &String) -> (r: bool)
    ensures
        r == path_set(path@).contains(name@),
{
    let mut i: usize = 0;
    while i < path.len()
        invariant
            i <= path@.len(),
            forall|j: int| 0 <= j < i ==> path@[j]@ != name@,
        decreases path@.len() - i,
    {
        if same_text(&path[i], name) {
            assert(path_set(path@).contains(name@));
            return true;
        }
        i += 1;
    }
    false
}

impl StructTable {
    /// An empty table.
    pub fn new() -> (r: StructTable)
        ensures
            r@ == Seq::<(Seq<char>, Seq<KT>)>::empty(),
    {
        let r = StructTable { entries: Vec::new() };
        assert(r@ =~= Seq::<(Seq<char>, Seq<KT>)>::empty());
        r
    }

    /// The index of the first entry named `name`.
    pub fn find(&self, name: &str) -> (r: Option<usize>)
        ensures
            match r {
                Some(i) => i < self@.len() && self@[i as int].0 == name@ && forall|j: int|
                    0 <= j < i ==> self@[j].0 != name@,
                None => forall|j: int| 0 <= j < self@.len() ==> self@[j].0 != name@,
            },
    {
        let mut i: usize = 0;
        while i < self.entries.len()
            invariant
                i <= self@.len() == self.entries@.len(),
                forall|j: int| 0 <= j < i ==> self@[j].0 != name@,
            decreases self.entries@.len() - i,
        {
            if text_eq(self.entries[i].0.as_str(), name) {
                return Some(i);
            }
            i += 1;
        }
        None
    }

    /// Records the fields of the struct `name`, in place of any it had; the
    /// first entry with that name holds the fields' names as given.
    pub fn register(&mut self, name: &str, fields: &[(String, KangType)])
        ensures
            forall|n: Seq<char>| #[trigger]
                fields_of(final(self)@, n) == if n == name@ {
                    Some(field_types(fields@))
                } else {
                    fields_of(old(self)@, n)
                },
            exists|i: int|
                0 <= i < final(self).entries@.len() && final(self).entries@[i].0@ == name@ && field_names(
                    final(self).entries@[i].1@,
                ) == field_names(fields@) && forall|j: int| 0 <= j < i ==> final(self).entries@[j].0@ != name@,
    {
        let mut copy: Vec<(String, KangType)> = Vec::new();
        let mut k: usize = 0;
        while k < fields.len()
            invariant
                k <= fields@.len(),
                copy@.len() == k,
                forall|j: int| 0 <= j < k ==> (#[trigger] copy@[j]).0@ == fields@[j].0@ && copy@[j].1@ == fields@[j].1@,
            decreases fields@.len() - k,
        {
            copy.push((fields[k].0.clone(), fields[k].1.clone()));
            k += 1;
        }
        assert(field_types(copy@) =~= field_types(fields@));
        assert(field_names(copy@) =~= field_names(fields@));
        let ghost before = self@;
        let ghost fs = field_types(fields@);
        let ghost copy_names = field_names(copy@);
        let entry = (string_of(name), copy);
        match self.find(name) {
            Some(i) => {
                self.entries.set(i, entry);
                assert(self.entries@[i as int].0@ == name@);
                assert(forall|j: int| 0 <= j < i ==> self.entries@[j].0@ == before[j].0);
                assert(self@ =~= before.update(i as int, (before[i as int].0, fs)));
                assert forall|n: Seq<char>| #[trigger]
                    fields_of(self@, n) == if n == name@ {
                        Some(fs)
                    } else {
                        fields_of(before, n)
                    } by {
                    lemma_fields_of_replaced(before, i as nat, fs, n);
                }
                assert(field_names(self.entries@[i as int].1@) == field_names(fields@));
                assert forall|j: int| 0 <= j < i implies self.entries@[j].0@ != name@ by {
                    assert(self.entries@[j].0@ == before[j].0);
                }
            },
            None => {
                self.entries.push(entry);
                assert(forall|j: int| 0 <= j < before.len() ==> self.entries@[j].0@ == before[j].0);
                assert(self.entries@[before.len() as int].0@ == name@);
                assert(self@ =~= before.push((name@, fs)));
                assert forall|n: Seq<char>| #[trigger]
                    fields_of(self@, n) == if n == name@ {
                        Some(fs)
                    } else {
                        fields_of(before, n)
                    } by {
                    lemma_fields_of_pushed(before, name@, fs, n);
                }
                let ghost w = before.len() as int;
                assert(field_names(self.entries@[w].1@) == field_names(fields@));
                assert forall|j: int| 0 <= j < w implies self.entries@[j].0@ != name@ by {
                    assert(self.entries@[j].0@ == before[j].0);
                }
            },
        }
    }
}

/// Replacing the fields of the first entry with its name.
pub proof fn lemma_fields_of_replaced(tv: TableV, i: nat, fs: Seq<KT>, n: Seq<char>)
    requires
        i < tv.len(),
        forall|j: int| 0 <= j < i ==> tv[j].0 != tv[i as int].0,
    ensures
        fields_of(tv.update(i as int, (tv[i as int].0, fs)), n) == if n == tv[i as int].0 {
            Some(fs)
        } else {
            fields_of(tv, n)
        },
    decreases i,
{
    let u = tv.update(i as int, (tv[i as int].0, fs));
    assert(u.subrange(1, u.len() as int) =~= if i == 0 {
        tv.subrange(1, tv.len() as int)
    } else {
        tv.subrange(1, tv.len() as int).update(i - 1, (tv[i as int].0, fs))
    });
    if i > 0 {
        let rest = tv.subrange(1, tv.len() as int);
        assert(rest[i - 1] == tv[i as int]);
        assert forall|j: int| 0 <= j < i - 1 implies #[trigger] rest[j].0 != rest[i - 1].0 by {
            assert(rest[j] == tv[j + 1]);
        }
        lemma_fields_of_replaced(rest, (i - 1) as nat, fs, n);
    }
}

/// Adding an entry under a new name.
pub proof fn lemma_fields_of_pushed(tv: TableV, name: Seq<char>, fs: Seq<KT>, n: Seq<char>)
    requires
        forall|j: int| 0 <= j < tv.len() ==> tv[j].0 != name,
    ensures
        fields_of(tv.push((name, fs)), n) == if n == name {
            Some(fs)
        } else {
            fields_of(tv, n)
        },
    decreases tv.len(),
{
    let u = tv.push((name, fs));
    if tv.len() > 0 {
        let rest = tv.subrange(1, tv.len() as int);
        assert(u[0] == tv[0]);
        assert(u.subrange(1, u.len() as int) =~= rest.push((name, fs)));
        assert forall|j: int| 0 <= j < rest.len() implies rest[j].0 != name by {
            assert(rest[j] == tv[j + 1]);
        }
        lemma_fields_of_pushed(rest, name, fs, n);
    } else {
        assert(u.subrange(1, u.len() as int) =~= Seq::<(Seq<char>, Seq<KT>)>::empty());
        assert(u[0] == (name, fs));
        assert(fields_of(Seq::<(Seq<char>, Seq<KT>)>::empty(), n) is None);
    }
}

/// A pair is at least as large as each of its parts.
pub proof fn lemma_pair_parts(tv: TableV, open: Set<Seq<char>>, a: KT, b: KT)
    ensures
        size_v(tv, open, a) <= size_v(tv, open, KT::Pair(Box::new(a), Box::new(b))),
        size_v(tv, open, b) <= size_v(tv, open, KT::Pair(Box::new(a), Box::new(b))),
{
    lemma_align_range(tv, open, a);
    lemma_align_range(tv, open, b);
    let a2 = align_v(tv, open, b);
    let m = max_nat(align_v(tv, open, a), a2);
    let second = round_up(size_v(tv, open, a), a2);
    lemma_round_up(size_v(tv, open, a), a2);
    lemma_round_up(second + size_v(tv, open, b), m);
}

/// The fields of a struct end no later than the struct does.
pub proof fn lemma_struct_parts(tv: TableV, open: Set<Seq<char>>, n: Seq<char>)
    requires
        open.finite(),
        open.contains(n),
        fields_of(tv, n) is Some,
    ensures
        fields_end(tv, open.remove(n), fields_of(tv, n)->0) <= size_v(tv, open, KT::Struct(n)),
{
    let inner = open.remove(n);
    let fs = fields_of(tv, n)->0;
    lemma_fields_align_range(tv, inner, fs);
    lemma_round_up(fields_end(tv, inner, fs), fields_align(tv, inner, fs));
}

impl StructTable {
    /// The alignment of `ty`, with the structs of `open` still to enter.
    fn alignment_x(&self, ty: &KangType, Ghost(open): Ghost<Set<Seq<char>>>) -> (r: u32)
        requires
            laid_out(self@, open, ty@),
        ensures
            r as nat == align_v(self@, open, ty@),
            1 <= r <= 8,
        decreases open.len(), ty,
    {
        proof {
            lemma_align_range(self@, open, ty@);
        }
        match ty {
            KangType::I32 => 4,
            KangType::F64 => 8,
            KangType::Bool => 1,
            KangType::Str => 8,
            KangType::Array(_) => 8,
            KangType::Void => 1,
            KangType::Pair(t1, t2) => {
                let a1 = self.alignment_x(&**t1, Ghost(open));
                let a2 = self.alignment_x(&**t2, Ghost(open));
                if a1 >= a2 {
                    a1
                } else {
                    a2
                }
            },
            KangType::Struct(name) => {
                let i = match self.find(name.as_str()) {
                    Some(i) => i,
                    None => {
                        proof {
                            lemma_fields_of_none(self@, name@);
                        }
                        return 8;
                    },
                };
                let ghost inner = open.remove(name@);
                proof {
                    lemma_fields_of_at(self@, name@, i as nat);
                    vstd::set::axiom_set_remove_len(open, name@);
                }
                let fields = &self.entries[i].1;
                let ghost fts = field_types(fields@);
                assert(fts == self@[i as int].1);
                // the largest field alignment; 8 for a struct without fields
                let mut best: u32 = 8;
                let mut k: usize = 0;
                while k < fields.len()
                    invariant
                        k <= fields@.len() == fts.len(),
                        fts == field_types(fields@),
                        fields_laid_out(self@, inner, fts),
                        inner.len() < open.len(),
                        k > 0 ==> best as nat == fields_align(self@, inner, fts.subrange(0, k as int)),
                        k == 0 ==> best == 8,
                        1 <= best <= 8,
                    decreases fields@.len() - k,
                {
                    proof {
                        lemma_fields_each(self@, inner, fts, k as nat);
                    }
                    let a = self.alignment_x(&fields[k].1, Ghost(inner));
                    let ghost sub = fts.subrange(0, k + 1);
                    assert(sub.subrange(0, k as int) =~= fts.subrange(0, k as int));
                    assert(sub[k as int] == fts[k as int]);
                    if k == 0 || a > best {
                        best = a;
                    }
                    k += 1;
                }
                assert(fts.subrange(0, fts.len() as int) =~= fts);
                best
            },
        }
    }

    /// The size of `ty` if it fits in a `u32`, with the structs of `open`
    /// still to enter.
    fn size_x(&self, ty: &KangType, Ghost(open): Ghost<Set<Seq<char>>>) -> (r: Option<u32>)
        requires
            laid_out(self@, open, ty@),
        ensures
            r == (if size_v(self@, open, ty@) <= u32::MAX as nat {
                Some(size_v(self@, open, ty@) as u32)
            } else {
                None::<u32>
            }),
        decreases open.len(), ty,
    {
        match ty {
            KangType::I32 => Some(4),
            KangType::F64 => Some(8),
            KangType::Bool => Some(1),
            KangType::Str => Some(16),
            KangType::Array(_) => Some(16),
            KangType::Void => Some(0),
            KangType::Pair(t1, t2) => {
                proof {
                    lemma_pair_parts(self@, open, t1@, t2@);
                }
                let s1 = match self.size_x(&**t1, Ghost(open)) {
                    Some(x) => x,
                    None => return None,
                };
                let s2 = match self.size_x(&**t2, Ghost(open)) {
                    Some(x) => x,
                    None => return None,
                };
                let a1 = self.alignment_x(&**t1, Ghost(open)) as u64;
                let a2 = self.alignment_x(&**t2, Ghost(open)) as u64;
                proof {
                    lemma_round_up(s1 as nat, a2 as nat);
                }
                // the second value sits on its own alignment
                let offset_s2 = (s1 as u64 + a2 - 1) / a2 * a2;
                let total = offset_s2 + s2 as u64;
                let align = if a1 >= a2 {
                    a1
                } else {
                    a2
                };
                proof {
                    lemma_round_up(total as nat, align as nat);
                }
                let r = (total + align - 1) / align * align;
                if r > 0xffff_ffff {
                    None
                } else {
                    Some(r as u32)
                }
            },
            KangType::Struct(name) => {
                let i = match self.find(name.as_str()) {
                    Some(i) => i,
                    None => {
                        proof {
                            lemma_fields_of_none(self@, name@);
                        }
                        return Some(0);
                    },
                };
                let ghost inner = open.remove(name@);
                proof {
                    lemma_fields_of_at(self@, name@, i as nat);
                    vstd::set::axiom_set_remove_len(open, name@);
                    lemma_struct_parts(self@, open, name@);
                }
                let fields = &self.entries[i].1;
                let ghost fts = field_types(fields@);
                assert(fts == self@[i as int].1);
                let ghost whole = size_v(self@, open, ty@);
                assert(fields_end(self@, inner, fts) <= whole);
                let mut total: u64 = 0;
                let mut k: usize = 0;
                assert(fts.subrange(0, 0) =~= Seq::<KT>::empty());
                while k < fields.len()
                    invariant
                        k <= fields@.len() == fts.len(),
                        fts == field_types(fields@),
                        fields_laid_out(self@, inner, fts),
                        inner.len() < open.len(),
                        total as nat == fields_end(self@, inner, fts.subrange(0, k as int)),
                        total <= u32::MAX,
                        fields_end(self@, inner, fts) <= whole,
                        whole == size_v(self@, open, ty@),
                    decreases fields@.len() - k,
                {
                    proof {
                        lemma_fields_each(self@, inner, fts, k as nat);
                        lemma_fields_end_mono(self@, inner, fts, k as nat);
                        lemma_fields_end_mono(self@, inner, fts, (k + 1) as nat);
                    }
                    let a = self.alignment_x(&fields[k].1, Ghost(inner)) as u64;
                    proof {
                        lemma_round_up(total as nat, a as nat);
                    }
                    let rounded = (total + a - 1) / a * a;
                    let sz = match self.size_x(&fields[k].1, Ghost(inner)) {
                        Some(x) => x,
                        None => return None,
                    };
                    let next = rounded + sz as u64;
                    let ghost sub = fts.subrange(0, k + 1);
                    assert(sub.subrange(0, k as int) =~= fts.subrange(0, k as int));
                    assert(sub[k as int] == fts[k as int]);
                    assert(next as nat == fields_end(self@, inner, sub));
                    if next > 0xffff_ffff {
                        return None;
                    }
                    total = next;
                    k += 1;
                }
                assert(fts.subrange(0, fts.len() as int) =~= fts);
                // the struct is padded to its own alignment
                let sa = self.alignment_x(ty, Ghost(open)) as u64;
                proof {
                    lemma_round_up(total as nat, sa as nat);
                }
                let r = (total + sa - 1) / sa * sa;
                if r > 0xffff_ffff {
                    None
                } else {
                    Some(r as u32)
                }
            },
        }
    }
}

/// Entering the struct `name` adds it to the path and takes it out of the
/// structs still to enter.
pub proof fn lemma_enter(tv: TableV, p0: Seq<String>, name: String)
    ensures
        names(tv).difference(path_set(p0.push(name))) =~= names(tv).difference(path_set(p0)).remove(name@),
{
    let p1 = p0.push(name);
    assert forall|m: Seq<char>| path_set(p1).contains(m) <==> path_set(p0).insert(name@).contains(m) by {
        if path_set(p1).contains(m) {
            let j = choose|j: int| 0 <= j < p1.len() && p1[j]@ == m;
            if j < p0.len() {
                assert(p0[j] == p1[j]);
                assert(path_set(p0).contains(m));
            }
        }
        if path_set(p0).contains(m) {
            let j = choose|j: int| 0 <= j < p0.len() && p0[j]@ == m;
            assert(p1[j] == p0[j]);
        }
        if m == name@ {
            assert(p1[p0.len() as int] == name);
        }
    }
    assert(path_set(p1) =~= path_set(p0).insert(name@));
}

impl StructTable {
    /// Whether `ty` is laid out, with the structs on `path` already entered.
    #[verifier::loop_isolation(false)]
    fn lays_out_x(&self, ty: &KangType, path: &mut Vec<String>, Ghost(open): Ghost<Set<Seq<char>>>) -> (r: bool)
        requires
            open == names(self@).difference(path_set(old(path)@)),
        ensures
            r == laid_out(self@, open, ty@),
            final(path)@ == old(path)@,
        decreases open.len(), ty,
    {
        proof {
            lemma_names(self@, Seq::empty());
            vstd::set::axiom_set_difference_finite(names(self@), path_set(path@));
        }
        match ty {
            KangType::Pair(t1, t2) => {
                if !self.lays_out_x(&**t1, path, Ghost(open)) {
                    return false;
                }
                self.lays_out_x(&**t2, path, Ghost(open))
            },
            KangType::Struct(name) => {
                if on_path(path, name) {
                    return false;
                }
                let i = match self.find(name.as_str()) {
                    Some(i) => i,
                    None => {
                        proof {
                            lemma_fields_of_none(self@, name@);
                        }
                        return false;
                    },
                };
                proof {
                    lemma_fields_of_at(self@, name@, i as nat);
                    lemma_names(self@, name@);
                    assert(open.contains(name@));
                    vstd::set::axiom_set_remove_len(open, name@);
                }
                let ghost p0 = path@;
                let ghost inner = open.remove(name@);
                path.push(name.clone());
                proof {
                    lemma_enter(self@, p0, *name);
                }
                let fields = &self.entries[i].1;
                let ghost fts = field_types(fields@);
                assert(fts == self@[i as int].1);
                let mut good = true;
                let mut k: usize = 0;
                assert(fts.subrange(0, 0) =~= Seq::<KT>::empty());
                while k < fields.len()
                    invariant
                        k <= fields@.len() == fts.len(),
                        fts == field_types(fields@),
                        path@ == p0.push(*name),
                        inner == names(self@).difference(path_set(path@)),
                        inner.len() < open.len(),
                        good,
                        fields_laid_out(self@, inner, fts.subrange(0, k as int)),
                    decreases fields@.len() - k,
                {
                    let ok = self.lays_out_x(&fields[k].1, path, Ghost(inner));
                    let ghost sub = fts.subrange(0, k + 1);
                    assert(sub.subrange(0, k as int) =~= fts.subrange(0, k as int));
                    assert(sub[k as int] == fts[k as int]);
                    if !ok {
                        good = false;
                        proof {
                            if fields_laid_out(self@, inner, fts) {
                                lemma_fields_each(self@, inner, fts, k as nat);
                            }
                        }
                        break;
                    }
                    k += 1;
                }
                assert(good ==> fts.subrange(0, fts.len() as int) =~= fts);
                path.pop();
                assert(path@ =~= p0);
                good
            },
            _ => true,
        }
    }

    /// Whether every struct that `ty` holds by value is registered and no
    /// struct holds itself, however deep.
    pub fn lays_out(&self, ty: &KangType) -> (r: bool)
        ensures
            r == laid_out(self@, names(self@), ty@),
    {
        let mut path: Vec<String> = Vec::new();
        proof {
            assert(path_set(path@) =~= Set::<Seq<char>>::empty());
            assert(names(self@).difference(path_set(path@)) =~= names(self@));
        }
        self.lays_out_x(ty, &mut path, Ghost(names(self@)))
    }

    /// The alignment of a value of type `ty`, in bytes.
    pub fn alignment_of(&self, ty: &KangType) -> (r: u32)
        requires
            laid_out(self@, names(self@), ty@),
        ensures
            r as nat == align_v(self@, names(self@), ty@),
    {
        self.alignment_x(ty, Ghost(names(self@)))
    }

    /// The storage size of a value of type `ty`, in bytes.
    pub fn size_of(&self, ty: &KangType) -> (r: u32)
        requires
            laid_out(self@, names(self@), ty@),
            size_v(self@, names(self@), ty@) <= u32::MAX,
        ensures
            r as nat == size_v(self@, names(self@), ty@),
    {
        match self.size_x(ty, Ghost(names(self@))) {
            Some(n) => n,
            None => {
                proof {
                    assert(false);
                }
                0
            },
        }
    }

    /// The storage size of `ty` when it can be laid out and fits in a
    /// `u32`; `None` otherwise.
    pub fn checked_size_of(&self, ty: &KangType) -> (r: Option<u32>)
        ensures
            r == (if laid_out(self@, names(self@), ty@) && size_v(self@, names(self@), ty@) <= u32::MAX {
                Some(size_v(self@, names(self@), ty@) as u32)
            } else {
                None::<u32>
            }),
    {
        if !self.lays_out(ty) {
            return None;
        }
        self.size_x(ty, Ghost(names(self@)))
    }
}

/// If some entry is named `n`, there is a first one.
pub proof fn lemma_first_named(tv: TableV, n: Seq<char>)
    requires
        exists|j: int| 0 <= j < tv.len() && tv[j].0 == n,
    ensures
        exists|j: int| 0 <= j < tv.len() && tv[j].0 == n && forall|m: int| 0 <= m < j ==> tv[m].0 != n,
    decreases tv.len(),
{
    if tv[0].0 != n {
        let rest = tv.subrange(1, tv.len() as int);
        let j = choose|j: int| 0 <= j < tv.len() && tv[j].0 == n;
        assert(rest[j - 1] == tv[j]);
        lemma_first_named(rest, n);
        let k = choose|k: int| 0 <= k < rest.len() && rest[k].0 == n && forall|m: int| 0 <= m < k ==> rest[m].0 != n;
        assert(tv[k + 1] == rest[k]);
        assert forall|m: int| 0 <= m < k + 1 implies tv[m].0 != n by {
            if m > 0 {
                assert(tv[m] == rest[m - 1]);
            }
        }
    } else {
        assert(0 <= 0 < tv.len() && tv[0].0 == n && forall|m: int| 0 <= m < 0 ==> tv[m].0 != n);
    }
}

} // verus!
