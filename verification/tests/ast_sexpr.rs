//! The S-expression form of syntax trees.

use kangc::ast::{
    BaseType, BinOp, Expr, FuncDef, LValue, Program, ReturnType, Stmt, StructDef, TopLevel, Type, UnaryOp,
    VarBinding,
};
use std::ops::Range;

const S: Range<usize> = 0..1;
// ── Type Display ───────────────────────────────────────────────────

#[test]
fn display_base_i32() {
    assert_eq!((Type::Base(BaseType::I32)).to_sexpr(), "(type \"i32\")");
}

#[test]
fn display_base_void() {
    assert_eq!((Type::Base(BaseType::Void)).to_sexpr(), "(type \"void\")");
}

#[test]
fn display_array() {
    assert_eq!((Type::Array(BaseType::I32)).to_sexpr(), "(type \"[i32]\")");
}

#[test]
fn display_return_type_pair() {
    let rt = ReturnType::Pair(Type::Base(BaseType::I32), Type::Base(BaseType::Bool));
    assert_eq!((rt).to_sexpr(), "((type \"i32\") (type \"bool\"))");
}

// ── Expr Display ───────────────────────────────────────────────────

#[test]
fn display_int_lit() {
    assert_eq!((Expr::IntLit("42".into(), S)).to_sexpr(), "(int-lit 42)");
}

#[test]
fn display_float_lit() {
    assert_eq!((Expr::FloatLit("3.14".into(), S)).to_sexpr(), "(float-lit 3.14)");
}

#[test]
fn display_str_lit() {
    assert_eq!((Expr::StrLit("hello".into(), S)).to_sexpr(), "(str-lit \"hello\")");
}

#[test]
fn display_bool_lit() {
    assert_eq!((Expr::BoolLit(true, S)).to_sexpr(), "(bool-lit true)");
    assert_eq!((Expr::BoolLit(false, S)).to_sexpr(), "(bool-lit false)");
}

#[test]
fn display_ident() {
    assert_eq!((Expr::Ident("main".into(), S)).to_sexpr(), "main");
}

#[test]
fn display_binary_expr() {
    let e = Expr::Binary {
        left: Box::new(Expr::Ident("a".into(), S)),
        op: BinOp::Add,
        right: Box::new(Expr::IntLit("1".into(), S)),
        span: S,
    };
    assert_eq!((e).to_sexpr(), "(+ a (int-lit 1))");
}

#[test]
fn display_unary_expr() {
    let e = Expr::Unary { op: UnaryOp::Neg, expr: Box::new(Expr::Ident("x".into(), S)), span: S };
    assert_eq!((e).to_sexpr(), "(- x)");
}

#[test]
fn display_call() {
    let e = Expr::Call {
        func: Box::new(Expr::Ident("f".into(), S)),
        args: vec![Expr::IntLit("1".into(), S), Expr::IntLit("2".into(), S)],
        span: S,
    };
    let s = (e).to_sexpr();
    assert!(s.contains("call"), "output: {}", s);
    assert!(s.contains("int-lit 1"), "output: {}", s);
}

#[test]
fn display_call_no_args() {
    let e = Expr::Call { func: Box::new(Expr::Ident("f".into(), S)), args: vec![], span: S };
    assert_eq!((e).to_sexpr(), "(call f args=())");
}

#[test]
fn display_index() {
    let e = Expr::Index {
        array: Box::new(Expr::Ident("arr".into(), S)),
        index: Box::new(Expr::IntLit("0".into(), S)),
        span: S,
    };
    assert_eq!((e).to_sexpr(), "(index arr (int-lit 0))");
}

#[test]
fn display_field_access() {
    let e = Expr::FieldAccess {
        obj: Box::new(Expr::Ident("obj".into(), S)),
        field: "field".into(),
        span: S,
    };
    assert_eq!((e).to_sexpr(), "(. obj field)");
}

#[test]
fn display_array_lit() {
    let e = Expr::ArrayLit(vec![Expr::IntLit("1".into(), S), Expr::IntLit("2".into(), S)], S);
    assert_eq!((e).to_sexpr(), "(array-lit (int-lit 1) (int-lit 2))");
}

#[test]
fn display_array_lit_empty() {
    assert_eq!((Expr::ArrayLit(vec![], S)).to_sexpr(), "(array-lit)");
}

#[test]
fn display_struct_lit() {
    let e = Expr::StructLit {
        name: "Point".into(),
        fields: vec![("x".into(), Expr::IntLit("1".into(), S))],
        span: S,
    };
    let s = (e).to_sexpr();
    assert!(s.contains("struct-lit \"Point\""), "output: {}", s);
    assert!(s.contains("(x (int-lit 1))"), "output: {}", s);
}

// ── Stmt Display ───────────────────────────────────────────────────

#[test]
fn display_return_void() {
    assert_eq!((Stmt::Return { values: vec![], span: S }).to_sexpr(), "(return)");
}

#[test]
fn display_return_single() {
    let s = Stmt::Return { values: vec![Expr::IntLit("0".into(), S)], span: S };
    assert_eq!((s).to_sexpr(), "(return (int-lit 0))");
}

#[test]
fn display_var_decl() {
    let s = Stmt::VarDecl {
        bindings: vec![VarBinding::Named { name: "x".into(), ty: Type::Base(BaseType::I32) }],
        init: Box::new(Expr::IntLit("42".into(), S)),
        span: S,
    };
    let out = (s).to_sexpr();
    assert!(out.contains("var-decl"), "output: {}", out);
    assert!(out.contains("x"), "output: {}", out);
}

#[test]
fn display_assign() {
    let s = Stmt::Assign {
        lvalue: LValue::Ident("x".into(), S),
        value: Box::new(Expr::IntLit("1".into(), S)),
        span: S,
    };
    assert_eq!((s).to_sexpr(), "(assign x (int-lit 1))");
}

#[test]
fn display_if_with_else() {
    let s = Stmt::If {
        condition: Box::new(Expr::BoolLit(true, S)),
        then_branch: Box::new(Stmt::Return { values: vec![], span: S }),
        else_branch: Some(Box::new(Stmt::Return { values: vec![Expr::IntLit("0".into(), S)], span: S })),
        span: S,
    };
    let out = (s).to_sexpr();
    assert!(out.contains("(if"), "output: {}", out);
    assert!(out.contains("(then"), "output: {}", out);
    assert!(out.contains("(else"), "output: {}", out);
}

#[test]
fn display_block_empty() {
    assert_eq!((Stmt::Block(vec![], S)).to_sexpr(), "(block)");
}

// ── TopLevel Display ───────────────────────────────────────────────

#[test]
fn display_struct_def() {
    let s = StructDef { name: "Point".into(), fields: vec![] };
    assert_eq!((s).to_sexpr(), "(struct-def \"Point\")");
}

#[test]
fn display_func_def_minimal() {
    let f = FuncDef {
        name: "main".into(),
        params: vec![],
        return_type: ReturnType::Single(Type::Base(BaseType::I32)),
        body: vec![],
    };
    let out = (f).to_sexpr();
    assert!(out.contains("func-def \"main\""), "output: {}", out);
    assert!(out.contains("(type \"i32\")"), "output: {}", out);
}

#[test]
fn display_program_empty() {
    assert_eq!((Program { items: vec![] }).to_sexpr(), "(program)");
}

#[test]
fn display_program_with_items() {
    let p = Program {
        items: vec![
            TopLevel::Struct(StructDef { name: "A".into(), fields: vec![] }),
        ],
    };
    let out = (p).to_sexpr();
    assert!(out.contains("(program"), "output: {}", out);
    assert!(out.contains("struct-def"), "output: {}", out);
}

// ── VarBinding Display ─────────────────────────────────────────────

#[test]
fn display_var_binding_named() {
    let v = VarBinding::Named { name: "x".into(), ty: Type::Base(BaseType::I32) };
    assert_eq!((v).to_sexpr(), "(x (type \"i32\"))");
}

#[test]
fn display_var_binding_discard() {
    assert_eq!((VarBinding::Discard).to_sexpr(), "_");
}

// ── LValue Display ─────────────────────────────────────────────────

#[test]
fn display_lvalue_ident() {
    assert_eq!((LValue::Ident("x".into(), S)).to_sexpr(), "x");
}

#[test]
fn display_lvalue_index() {
    let l = LValue::Index {
        array: Box::new(Expr::Ident("arr".into(), S)),
        index: Box::new(Expr::IntLit("0".into(), S)),
        span: S,
    };
    assert_eq!((l).to_sexpr(), "(lvalue-index arr (int-lit 0))");
}

#[test]
fn display_lvalue_field() {
    let l = LValue::FieldAccess {
        obj: Box::new(Expr::Ident("obj".into(), S)),
        field: "f".into(),
        span: S,
    };
    assert_eq!((l).to_sexpr(), "(lvalue-field obj f)");
}

// ── BaseType Display ───────────────────────────────────────────────

#[test]
fn display_basetype_user() {
    assert_eq!((BaseType::UserDef("MyType".into())).to_sexpr(), "MyType");
}
