//! The text of the typed tree: each expression followed by its type.

use kangc::ast::{BinOp, LValue, Program, UnaryOp};
use kangc::lexer::tokenize;
use kangc::parser::parse;
use kangc::semantic::types::{KangType, TypedExpr, TypedExprKind, TypedProgram, TypedStmt, TypedStmtKind, TypedTopLevel};
use kangc::stats::{LexStats, ParseStats, SemanticStats};

fn program_of(src: &str) -> Program {
    let mut ls = LexStats::default();
    let tokens = tokenize(src, &mut ls).expect("lex");
    let mut ps = ParseStats::default();
    parse(&tokens, &mut ps).expect("parse")
}

fn typed_of(src: &str) -> TypedProgram {
    let program = program_of(src);
    let mut stats = SemanticStats::default();
    kangc::semantic::check(&program, &mut stats, "<test>", &Vec::new()).expect("check")
}

fn lit(v: &str) -> TypedExpr {
    TypedExpr { kind: TypedExprKind::IntLit(v.to_string()), ty: KangType::I32 }
}

fn ident(n: &str, ty: KangType) -> TypedExpr {
    TypedExpr { kind: TypedExprKind::Ident(n.to_string()), ty }
}

#[test]
fn typed_literals_carry_their_types() {
    assert_eq!(lit("42").to_text(), "(int-lit 42 :i32)");
    let f = TypedExpr { kind: TypedExprKind::FloatLit("1.5".to_string()), ty: KangType::F64 };
    assert_eq!(f.to_text(), "(float-lit 1.5 :f64)");
    let s = TypedExpr { kind: TypedExprKind::StrLit("a\"b".to_string()), ty: KangType::Str };
    assert_eq!(s.to_text(), "(str-lit \"a\\\"b\" :str)");
    let b = TypedExpr { kind: TypedExprKind::BoolLit(false), ty: KangType::Bool };
    assert_eq!(b.to_text(), "(bool-lit false :bool)");
    assert_eq!(ident("x", KangType::I32).to_text(), "x :i32");
}

#[test]
fn typed_compound_expressions() {
    let bin = TypedExpr {
        kind: TypedExprKind::Binary { left: Box::new(lit("1")), op: BinOp::Add, right: Box::new(lit("2")) },
        ty: KangType::I32,
    };
    assert_eq!(bin.to_text(), "(+ (int-lit 1 :i32) (int-lit 2 :i32) :i32)");
    let un = TypedExpr {
        kind: TypedExprKind::Unary { op: UnaryOp::Not, expr: Box::new(ident("b", KangType::Bool)) },
        ty: KangType::Bool,
    };
    assert_eq!(un.to_text(), "(! b :bool :bool)");
    let call = TypedExpr {
        kind: TypedExprKind::Call { func_name: "add".to_string(), args: vec![lit("1"), lit("2")] },
        ty: KangType::I32,
    };
    assert_eq!(call.to_text(), "(call add args=((int-lit 1 :i32) (int-lit 2 :i32)) :i32)");
    let none = TypedExpr {
        kind: TypedExprKind::Call { func_name: "f".to_string(), args: vec![] },
        ty: KangType::Void,
    };
    assert_eq!(none.to_text(), "(call f args=() :void)");
    let arr_ty = KangType::Array(Box::new(KangType::I32));
    let arr = TypedExpr { kind: TypedExprKind::ArrayLit(vec![lit("1"), lit("2")]), ty: arr_ty.clone() };
    assert_eq!(arr.to_text(), "(array-lit (int-lit 1 :i32) (int-lit 2 :i32) :[:i32])");
    let idx = TypedExpr {
        kind: TypedExprKind::Index { array: Box::new(ident("a", arr_ty)), index: Box::new(lit("0")) },
        ty: KangType::I32,
    };
    assert_eq!(idx.to_text(), "(index a :[:i32] (int-lit 0 :i32) :i32)");
    let p = KangType::Struct("P".to_string());
    let sl = TypedExpr {
        kind: TypedExprKind::StructLit { name: "P".to_string(), fields: vec![("x".to_string(), lit("1"))] },
        ty: p.clone(),
    };
    assert_eq!(sl.to_text(), "(struct-lit \"P\" (x (int-lit 1 :i32)) :P)");
    let fa = TypedExpr {
        kind: TypedExprKind::FieldAccess { obj: Box::new(ident("p", p)), field: "x".to_string() },
        ty: KangType::I32,
    };
    assert_eq!(fa.to_text(), "(. p :P x :i32)");
}

#[test]
fn typed_statements() {
    let decl = TypedStmt {
        kind: TypedStmtKind::VarDecl {
            bindings: vec![("a".to_string(), KangType::I32, false), ("_".to_string(), KangType::Void, true)],
            init: Box::new(lit("1")),
        },
    };
    assert_eq!(decl.to_text(), "(var-decl (a :i32 _) = (int-lit 1 :i32))");
    let assign = TypedStmt {
        kind: TypedStmtKind::Assign { lvalue: LValue::Ident("a".to_string(), 0..1), value: Box::new(lit("2")) },
    };
    assert_eq!(assign.to_text(), "(assign a (int-lit 2 :i32))");
    let ret0 = TypedStmt { kind: TypedStmtKind::Return { values: vec![] } };
    assert_eq!(ret0.to_text(), "(return)");
    let ret2 = TypedStmt { kind: TypedStmtKind::Return { values: vec![lit("1"), lit("2")] } };
    assert_eq!(ret2.to_text(), "(return (int-lit 1 :i32) (int-lit 2 :i32))");
    let cond = TypedExpr { kind: TypedExprKind::BoolLit(true), ty: KangType::Bool };
    let iff = TypedStmt {
        kind: TypedStmtKind::If {
            condition: Box::new(cond),
            then_branch: Box::new(TypedStmt { kind: TypedStmtKind::Block(vec![]) }),
            else_branch: Some(Box::new(TypedStmt { kind: TypedStmtKind::Expr(Box::new(lit("3"))) })),
        },
    };
    assert_eq!(iff.to_text(), "(if (bool-lit true :bool) (then (block)) (else (expr-stmt (int-lit 3 :i32))))");
    let block = TypedStmt { kind: TypedStmtKind::Block(vec![ret0, ret2]) };
    assert_eq!(block.to_text(), "(block\n    (return)\n    (return (int-lit 1 :i32) (int-lit 2 :i32)))");
}

#[test]
fn typed_program_text_shows_first_statement_of_each_function() {
    let t = typed_of("def add(a:i32, b:i32) -> i32 { var c:i32 = a + b; return c; }");
    assert_eq!(
        t.to_text(),
        "(program\n  (func-def \"add\" [(a :i32) (b :i32)] -> :i32\n    (var-decl (c :i32) = (+ a :i32 b :i32 :i32))))"
    );
}

#[test]
fn typed_program_text_of_struct_and_empty_body() {
    let t = TypedProgram { items: vec![] };
    assert_eq!(t.to_text(), "(program)");
    let t = typed_of("struct P { x: i32; } def f() -> void { }");
    match &t.items[1] {
        TypedTopLevel::Func(f) => assert!(f.body.is_empty()),
        _ => panic!("expected a function"),
    }
    assert_eq!(
        t.to_text(),
        "(program\n  (struct-def \"P\"\n    (field \"x\" (type \"i32\")))\n  (func-def \"f\" [] -> :void))"
    );
}

#[test]
fn typed_debug_text_matches_the_derived_debug() {
    for src in [
        "def f() -> i32 { return 42; }",
        "struct P { x: i32; s: str; } def g(p: P, a: [i32]) -> (i32, bool) { var q:P = P { x: 1, s: \"a\\\"b\" }; \
         q.x = a[0] + -p.x; if q.x < 2 then { return q.x, true; } else { print(\"no\"); } \
         for var i:i32 = 0, i < 3, i = i + 1 in { a[i] = i * 2; } return 0, !false; }",
        "def h() -> void { var _, b:bool = i32(\"4\"); var f:f64 = 1.5; var arr:[str] = [\"x\", \"y\"]; return; }",
    ] {
        let t = typed_of(src);
        assert_eq!(t.to_debug_text(), format!("{:?}", t), "{}", src);
    }
}
