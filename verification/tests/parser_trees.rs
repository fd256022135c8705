//! The parser: types, expressions and their precedence, statements,
//! top-level items, errors, figures and single REPL lines.

use kangc::ast::{BaseType, BinOp, Expr, LValue, Program, ReturnType, Stmt, TopLevel, Type, UnaryOp, VarBinding};
use kangc::error::ParseError;
use kangc::lexer;
use kangc::parser::{parse, parse_line, LineResult};
use kangc::stats::{LexStats, ParseStats};

const S: std::ops::Range<usize> = 0..1;
/// 辅助: 源码 → AST
fn parse_source(source: &str) -> Result<Program, ParseError> {
    let mut lex_stats = LexStats {
        duration_us: 0, token_count: 0,
        token_counts_by_kind: Vec::new(), comment_bytes: 0,
    };
    let tokens = lexer::tokenize(source, &mut lex_stats).unwrap();
    let mut stats = ParseStats {
        duration_us: 0, ast_node_count: 0, ast_max_depth: 0,
        node_counts_by_kind: Vec::new(), func_count: 0, struct_count: 0,
    };
    parse(&tokens, &mut stats)
}

/// 辅助: 源码 → 单条语句
fn parse_stmt(source: &str) -> Result<Stmt, ParseError> {
    // 包裹成一个函数体以便解析
    let full = format!("def _test() -> void {{ {} }}", source);
    let program = parse_source(&full)?;
    match &program.items[0] {
        TopLevel::Func(f) => Ok(f.body[0].clone()),
        _ => unreachable!(),
    }
}

/// 辅助: 源码 → 表达式
fn parse_expr(source: &str) -> Result<Expr, ParseError> {
    // 放在 return 语句中解析
    let full = format!("def _test() -> i32 {{ return {}; }}", source);
    let program = parse_source(&full)?;
    match &program.items[0] {
        TopLevel::Func(f) => match &f.body[0] {
            Stmt::Return { values , ..} => Ok(values[0].clone()),
            _ => unreachable!(),
        },
        _ => unreachable!(),
    }
}

// ── 类型解析 ─────────────────────────────────────────────────────────

#[test]
fn parse_base_i32() {
    let p = parse_source("def f() -> i32 { return 0; }").unwrap();
    let f = match &p.items[0] { TopLevel::Func(f) => f, _ => unreachable!() };
    assert_eq!(f.return_type, ReturnType::Single(Type::Base(BaseType::I32)));
}

#[test]
fn parse_base_f64() {
    let p = parse_source("def f() -> f64 { return 0.0; }").unwrap();
    let f = match &p.items[0] { TopLevel::Func(f) => f, _ => unreachable!() };
    assert_eq!(f.return_type, ReturnType::Single(Type::Base(BaseType::F64)));
}

#[test]
fn parse_type_array() {
    let p = parse_source("def f(a:[i32]) -> void { return; }").unwrap();
    let f = match &p.items[0] { TopLevel::Func(f) => f, _ => unreachable!() };
    assert_eq!(f.params[0].1, Type::Array(BaseType::I32));
}

#[test]
fn parse_ret_type_pair() {
    let p = parse_source("def f() -> (i32, bool) { return 1, true; }").unwrap();
    let f = match &p.items[0] { TopLevel::Func(f) => f, _ => unreachable!() };
    assert_eq!(
        f.return_type,
        ReturnType::Pair(Type::Base(BaseType::I32), Type::Base(BaseType::Bool))
    );
}

#[test]
fn parse_user_type() {
    let p = parse_source("def f(x:MyType) -> void { return; }").unwrap();
    let f = match &p.items[0] { TopLevel::Func(f) => f, _ => unreachable!() };
    assert_eq!(f.params[0].1, Type::Base(BaseType::UserDef("MyType".into())));
}

// ── 表达式: 字面量 ───────────────────────────────────────────────────

#[test] fn expr_int_lit()    { assert_eq!(parse_expr("42").unwrap(), Expr::IntLit("42".into(), S)); }
#[test] fn expr_float_lit()  { assert_eq!(parse_expr("3.14").unwrap(), Expr::FloatLit("3.14".into(), S)); }
#[test] fn expr_str_lit()    { assert_eq!(parse_expr("\"hi\"").unwrap(), Expr::StrLit("hi".into(), S)); }
#[test] fn expr_true()       { assert_eq!(parse_expr("true").unwrap(), Expr::BoolLit(true, S)); }
#[test] fn expr_false()      { assert_eq!(parse_expr("false").unwrap(), Expr::BoolLit(false, S)); }
#[test] fn expr_ident()      { assert_eq!(parse_expr("x").unwrap(), Expr::Ident("x".into(), S)); }

// ── 表达式: 二元运算符(优先级) ────────────────────────────────────────

#[test]
fn expr_binary_add() {
    assert_eq!(
        parse_expr("a + b").unwrap(),
        Expr::Binary {
            left: Box::new(Expr::Ident("a".into(), S)),
            op: BinOp::Add,
            right: Box::new(Expr::Ident("b".into(), S)),
         span: S,}
    );
}

#[test]
fn expr_binary_sub_mul_precedence() {
    // a + b * c  ≡  a + (b * c)
    let e = parse_expr("a + b * c").unwrap();
    assert_eq!(
        e,
        Expr::Binary {
            left: Box::new(Expr::Ident("a".into(), S)),
            op: BinOp::Add,
            right: Box::new(Expr::Binary {
                left: Box::new(Expr::Ident("b".into(), S)),
                op: BinOp::Mul,
                right: Box::new(Expr::Ident("c".into(), S)),
             span: S,}),
         span: S,}
    );
}

#[test]
fn expr_mul_before_add() {
    // a * b + c  ≡  (a * b) + c
    let e = parse_expr("a * b + c").unwrap();
    assert_eq!(
        e,
        Expr::Binary {
            left: Box::new(Expr::Binary {
                left: Box::new(Expr::Ident("a".into(), S)),
                op: BinOp::Mul,
                right: Box::new(Expr::Ident("b".into(), S)),
             span: S,}),
            op: BinOp::Add,
            right: Box::new(Expr::Ident("c".into(), S)),
         span: S,}
    );
}

#[test]
fn expr_paren_overrides_precedence() {
    // (a + b) * c  — 不同于 a + b * c
    let e = parse_expr("(a + b) * c").unwrap();
    assert_eq!(
        e,
        Expr::Binary {
            left: Box::new(Expr::Binary {
                left: Box::new(Expr::Ident("a".into(), S)),
                op: BinOp::Add,
                right: Box::new(Expr::Ident("b".into(), S)),
             span: S,}),
            op: BinOp::Mul,
            right: Box::new(Expr::Ident("c".into(), S)),
         span: S,}
    );
}

#[test]
fn expr_cmp_before_eq() {
    // a < b == true  ≡  (a < b) == true
    let e = parse_expr("a < b == true").unwrap();
    assert_eq!(e, Expr::Binary {
        left: Box::new(Expr::Binary {
            left: Box::new(Expr::Ident("a".into(), S)),
            op: BinOp::Lt,
            right: Box::new(Expr::Ident("b".into(), S)),
         span: S,}),
        op: BinOp::Eq,
        right: Box::new(Expr::BoolLit(true, S)),
     span: S,});
}

#[test]
fn expr_or_below_and() {
    // x || y && false  ≡  x || (y && false)
    let e = parse_expr("x || y && false").unwrap();
    assert_eq!(e, Expr::Binary {
        left: Box::new(Expr::Ident("x".into(), S)),
        op: BinOp::Or,
        right: Box::new(Expr::Binary {
            left: Box::new(Expr::Ident("y".into(), S)),
            op: BinOp::And,
            right: Box::new(Expr::BoolLit(false, S)),
         span: S,}),
     span: S,});
}

#[test]
fn expr_comparison_chain() {
    // a < b < c  ≡  (a < b) < c  (左结合)
    let e = parse_expr("a < b < c").unwrap();
    match e {
        Expr::Binary { left, op: BinOp::Lt, right , ..} => {
            assert_eq!(*left, Expr::Binary {
                left: Box::new(Expr::Ident("a".into(), S)),
                op: BinOp::Lt,
                right: Box::new(Expr::Ident("b".into(), S)),
             span: S,});
            assert_eq!(*right, Expr::Ident("c".into(), S));
        }
        _ => panic!("expected binary"),
    }
}

// ── 表达式: 一元运算符 ────────────────────────────────────────────────

#[test]
fn expr_neg() {
    assert_eq!(
        parse_expr("-a").unwrap(),
        Expr::Unary { op: UnaryOp::Neg, expr: Box::new(Expr::Ident("a".into(), S)) ,
                span: S}
    );
}

#[test]
fn expr_not() {
    assert_eq!(
        parse_expr("!x").unwrap(),
        Expr::Unary { op: UnaryOp::Not, expr: Box::new(Expr::Ident("x".into(), S)) ,
                span: S}
    );
}

#[test]
fn expr_double_neg() {
    assert_eq!(
        parse_expr("--42").unwrap(),
        Expr::Unary {
            op: UnaryOp::Neg,
            expr: Box::new(Expr::Unary {
                op: UnaryOp::Neg,
                expr: Box::new(Expr::IntLit("42".into(), S)),
             span: S,}),
         span: S,}
    );
}

#[test]
fn expr_neg_mul_precedence() {
    // -a * b  ≡  (-a) * b
    let e = parse_expr("-a * b").unwrap();
    assert_eq!(e, Expr::Binary {
        left: Box::new(Expr::Unary {
            op: UnaryOp::Neg,
            expr: Box::new(Expr::Ident("a".into(), S)),
         span: S,}),
        op: BinOp::Mul,
        right: Box::new(Expr::Ident("b".into(), S)),
     span: S,});
}

// ── 表达式: 后缀操作 ─────────────────────────────────────────────────

#[test]
fn expr_call_no_args() {
    assert_eq!(
        parse_expr("f()").unwrap(),
        Expr::Call { func: Box::new(Expr::Ident("f".into(), S)), args: vec![] ,
                span: S}
    );
}

#[test]
fn expr_call_one_arg() {
    assert_eq!(
        parse_expr("f(1)").unwrap(),
        Expr::Call {
            func: Box::new(Expr::Ident("f".into(), S)),
            args: vec![Expr::IntLit("1".into(), S)],
            span: S,
        }
    );
}

#[test]
fn expr_call_multi_args() {
    let e = parse_expr("add(1, 2, 3)").unwrap();
    match e {
        Expr::Call { func, args , ..} => {
            assert_eq!(*func, Expr::Ident("add".into(), S));
            assert_eq!(args.len(), 3);
        }
        _ => panic!("expected call"),
    }
}

#[test]
fn expr_index() {
    assert_eq!(
        parse_expr("arr[0]").unwrap(),
        Expr::Index {
            array: Box::new(Expr::Ident("arr".into(), S)),
            index: Box::new(Expr::IntLit("0".into(), S)),
         span: S,}
    );
}

#[test]
fn expr_field_access() {
    assert_eq!(
        parse_expr("obj.field").unwrap(),
        Expr::FieldAccess {
            obj: Box::new(Expr::Ident("obj".into(), S)),
            field: "field".into(),
         span: S,}
    );
}

#[test]
fn expr_chained_field_access() {
    // a.b.c
    let e = parse_expr("a.b.c").unwrap();
    assert_eq!(e, Expr::FieldAccess {
        obj: Box::new(Expr::FieldAccess {
            obj: Box::new(Expr::Ident("a".into(), S)),
            field: "b".into(),
         span: S,}),
        field: "c".into(),
     span: S,});
}

#[test]
fn expr_call_chained() {
    // f().g(1).h
    let e = parse_expr("f().g(1).h").unwrap();
    assert_eq!(e, Expr::FieldAccess {
        obj: Box::new(Expr::Call {
            func: Box::new(Expr::FieldAccess {
                obj: Box::new(Expr::Call {
                    func: Box::new(Expr::Ident("f".into(), S)),
                    args: vec![],
                 span: S,}),
                field: "g".into(),
             span: S,}),
            args: vec![Expr::IntLit("1".into(), S)],
            span: S,
        }),
        field: "h".into(),
     span: S,});
}

// ── 表达式: 数组/结构体字面量 ─────────────────────────────────────────

#[test]
fn expr_array_lit_empty() {
    assert_eq!(parse_expr("[]").unwrap(), Expr::ArrayLit(vec![], S));
}

#[test]
fn expr_array_lit_elements() {
    let e = parse_expr("[1, 2, 3]").unwrap();
    match e {
        Expr::ArrayLit(elems, _) => assert_eq!(elems.len(), 3),
        _ => panic!("expected array lit"),
    }
}

#[test]
fn expr_struct_lit_empty() {
    let e = parse_expr("Point{}").unwrap();
    match e {
        Expr::StructLit { name, fields , ..} => {
            assert_eq!(name, "Point");
            assert!(fields.is_empty());
        }
        _ => panic!("expected struct lit"),
    }
}

#[test]
fn expr_struct_lit_with_fields() {
    let e = parse_expr("Point{x: 1, y: 2}").unwrap();
    match e {
        Expr::StructLit { name, fields , ..} => {
            assert_eq!(name, "Point");
            assert_eq!(fields.len(), 2);
            assert_eq!(fields[0].0, "x");
            assert_eq!(fields[1].0, "y");
        }
        _ => panic!("expected struct lit"),
    }
}

// ── 语句解析 ─────────────────────────────────────────────────────────

#[test]
fn stmt_var_decl_single() {
    let s = parse_stmt("var x:i32 = 42;").unwrap();
    match s {
        Stmt::VarDecl { bindings, init , ..} => {
            assert_eq!(bindings.len(), 1);
            assert_eq!(bindings[0], VarBinding::Named { name: "x".into(), ty: Type::Base(BaseType::I32) });
            assert_eq!(*init, Expr::IntLit("42".into(), S));
        }
        _ => panic!("expected var decl"),
    }
}

#[test]
fn stmt_var_decl_double() {
    let s = parse_stmt("var a:i32, b:i32 = f();").unwrap();
    match s {
        Stmt::VarDecl { bindings, init: _ , ..} => {
            assert_eq!(bindings.len(), 2);
            assert_eq!(bindings[0], VarBinding::Named { name: "a".into(), ty: Type::Base(BaseType::I32) });
            assert_eq!(bindings[1], VarBinding::Named { name: "b".into(), ty: Type::Base(BaseType::I32) });
        }
        _ => panic!("expected var decl"),
    }
}

#[test]
fn stmt_var_decl_discard() {
    let s = parse_stmt("var _, r:i32 = f();").unwrap();
    match s {
        Stmt::VarDecl { bindings, .. } => {
            assert_eq!(bindings.len(), 2);
            assert_eq!(bindings[0], VarBinding::Discard);
        }
        _ => panic!("expected var decl"),
    }
}

#[test]
fn stmt_assign() {
    let s = parse_stmt("x = 42;").unwrap();
    match s {
        Stmt::Assign { lvalue, value , ..} => {
            assert_eq!(lvalue, LValue::Ident("x".into(), S));
            assert_eq!(*value, Expr::IntLit("42".into(), S));
        }
        _ => panic!("expected assign"),
    }
}

#[test]
fn stmt_assign_index() {
    let s = parse_stmt("arr[i] = 5;").unwrap();
    match s {
        Stmt::Assign { lvalue, .. } => {
            assert_eq!(lvalue, LValue::Index {
                array: Box::new(Expr::Ident("arr".into(), S)),
                index: Box::new(Expr::Ident("i".into(), S)),
             span: S,});
        }
        _ => panic!("expected assign"),
    }
}

#[test]
fn stmt_assign_field() {
    let s = parse_stmt("obj.field = 5;").unwrap();
    match s {
        Stmt::Assign { lvalue, .. } => {
            assert_eq!(lvalue, LValue::FieldAccess {
                obj: Box::new(Expr::Ident("obj".into(), S)),
                field: "field".into(),
             span: S,});
        }
        _ => panic!("expected assign"),
    }
}

#[test]
fn stmt_return_void() {
    let s = parse_stmt("return;").unwrap();
    assert_eq!(s, Stmt::Return { values: vec![] ,
                span: S});
}

#[test]
fn stmt_return_single() {
    let s = parse_stmt("return 0;").unwrap();
    assert_eq!(s, Stmt::Return { values: vec![Expr::IntLit("0".into(), S)], span: S });
}

#[test]
fn stmt_return_pair() {
    let s = parse_stmt("return 1, true;").unwrap();
    assert_eq!(s, Stmt::Return {
        values: vec![Expr::IntLit("1".into(), S), Expr::BoolLit(true, S)],
        span: S,
    });
}

#[test]
fn stmt_if_simple() {
    let s = parse_stmt("if x then return;").unwrap();
    match s {
        Stmt::If { condition, then_branch, else_branch , ..} => {
            assert_eq!(*condition, Expr::Ident("x".into(), S));
            assert_eq!(*then_branch, Stmt::Return { values: vec![] ,
                span: S});
            assert!(else_branch.is_none());
        }
        _ => panic!("expected if"),
    }
}

#[test]
fn stmt_if_else() {
    let s = parse_stmt("if x then return 0; else return 1;").unwrap();
    match s {
        Stmt::If { condition, then_branch: _, else_branch , ..} => {
            assert_eq!(*condition, Expr::Ident("x".into(), S));
            assert!(else_branch.is_some());
        }
        _ => panic!("expected if"),
    }
}

#[test]
fn stmt_block_empty() {
    let s = parse_stmt("{}").unwrap();
    assert_eq!(s, Stmt::Block(vec![], S));
}

#[test]
fn stmt_block_multiple() {
    let s = parse_stmt("{ return; return 1; }").unwrap();
    match s {
        Stmt::Block(stmts, _) => assert_eq!(stmts.len(), 2),
        _ => panic!("expected block"),
    }
}

#[test]
fn stmt_expr_stmt() {
    let s = parse_stmt("puts(\"hi\");").unwrap();
    match s {
        Stmt::Expr(_, _) => {} // 仅验证解析不报错
        _ => panic!("expected expr stmt"),
    }
}

#[test]
fn stmt_for_loop() {
    let source = "for var i:i32 = 0, i < 10, i = i + 1 in { }";
    let s = parse_stmt(source).unwrap();
    match s {
        Stmt::For { var_name, var_type, start, end, step_lvalue, step_expr: _, body , ..} => {
            assert_eq!(var_name, "i");
            assert_eq!(var_type, Type::Base(BaseType::I32));
            assert_eq!(*start, Expr::IntLit("0".into(), S));
            assert_eq!(*end, Expr::Binary {
                left: Box::new(Expr::Ident("i".into(), S)),
                op: BinOp::Lt,
                right: Box::new(Expr::IntLit("10".into(), S)),
             span: S,});
            assert_eq!(step_lvalue, LValue::Ident("i".into(), S));
            assert_eq!(*body, Stmt::Block(vec![], S));
        }
        _ => panic!("expected for"),
    }
}

// ── 顶层解析 ─────────────────────────────────────────────────────────

#[test]
fn top_struct_def() {
    let p = parse_source("struct Point { x: i32; y: i32; }").unwrap();
    assert_eq!(p.items.len(), 1);
    match &p.items[0] {
        TopLevel::Struct(s) => {
            assert_eq!(s.name, "Point");
            assert_eq!(s.fields.len(), 2);
            assert_eq!(s.fields[0].0, "x");
        }
        _ => panic!("expected struct"),
    }
}

#[test]
fn top_func_def() {
    let p = parse_source("def main() -> i32 { return 0; }").unwrap();
    assert_eq!(p.items.len(), 1);
    match &p.items[0] {
        TopLevel::Func(f) => {
            assert_eq!(f.name, "main");
            assert!(f.params.is_empty());
            assert_eq!(f.return_type, ReturnType::Single(Type::Base(BaseType::I32)));
        }
        _ => panic!("expected func"),
    }
}

#[test]
fn top_func_with_params() {
    let p = parse_source("def add(a:i32, b:i32) -> i32 { return a + b; }").unwrap();
    match &p.items[0] {
        TopLevel::Func(f) => {
            assert_eq!(f.params.len(), 2);
            assert_eq!(f.params[0].0, "a");
            assert_eq!(f.params[1].0, "b");
        }
        _ => unreachable!(),
    }
}

#[test]
fn top_multiple_items() {
    let p = parse_source("struct A {} def f() -> void { return; } struct B {}").unwrap();
    assert_eq!(p.items.len(), 3);
}

#[test]
fn top_import_single() {
    let p = parse_source("import m { add } from \"./math.kang\";").unwrap();
    assert_eq!(p.items.len(), 1);
    match &p.items[0] {
        TopLevel::Import(i) => {
            assert_eq!(i.alias, "m");
            assert_eq!(i.items, vec!["add"]);
            assert_eq!(i.path, "./math.kang");
        }
        _ => panic!("expected import"),
    }
}

#[test]
fn top_import_multi_items() {
    let p = parse_source("import m { add, sub, mul } from \"./math.kang\";").unwrap();
    match &p.items[0] {
        TopLevel::Import(i) => {
            assert_eq!(i.alias, "m");
            assert_eq!(i.items.len(), 3);
        }
        _ => panic!("expected import"),
    }
}

#[test]
fn top_import_mixed_with_def() {
    let p = parse_source("import m { f } from \"./lib.kang\"; def main() -> i32 { return 0; }").unwrap();
    assert_eq!(p.items.len(), 2);
    assert!(matches!(&p.items[0], TopLevel::Import(_)));
    assert!(matches!(&p.items[1], TopLevel::Func(_)));
}

#[test]
fn error_import_in_body() {
    // import 不可出现在函数体内
    let result = parse_source("def f() -> void { import m { x } from \"./lib.kang\"; return; }");
    assert!(result.is_err());
}

#[test]
fn error_bad_assignment_target() {
    // 42 = x; — 语法层会将 42 解析为表达式, 转左值时失败
    let result = parse_stmt("42 = x;");
    assert!(result.is_err());
    assert!(result.unwrap_err().msg.contains("赋值左侧"));
}

// ── 嵌套结构 ─────────────────────────────────────────────────────────

#[test]
fn nested_blocks() {
    let p = parse_source("def f() -> i32 { { { return 1; } } }").unwrap();
    match &p.items[0] {
        TopLevel::Func(f) => {
            match &f.body[0] {
                Stmt::Block(outer, _) => {
                    match &outer[0] {
                        Stmt::Block(inner, _) => {
                            assert!(matches!(inner[0], Stmt::Return { .. }));
                        }
                        _ => panic!("expected inner block"),
                    }
                }
                _ => panic!("expected outer block"),
            }
        }
        _ => unreachable!(),
    }
}

#[test]
fn if_in_if() {
    let s = parse_stmt("if x then if y then return 0; else return 1;").unwrap();
    match s {
        Stmt::If { then_branch, .. } => {
            assert!(matches!(*then_branch, Stmt::If { .. }));
        }
        _ => panic!("expected if"),
    }
}

// ── 边界情况 ─────────────────────────────────────────────────────────

#[test]
fn empty_program() {
    let p = parse_source("").unwrap();
    assert!(p.items.is_empty());
}

#[test]
fn empty_struct() {
    let p = parse_source("struct Empty {}").unwrap();
    match &p.items[0] {
        TopLevel::Struct(s) => assert!(s.fields.is_empty()),
        _ => panic!("expected struct"),
    }
}

#[test]
fn func_no_params() {
    let p = parse_source("def f() -> void { return; }").unwrap();
    match &p.items[0] {
        TopLevel::Func(f) => assert!(f.params.is_empty()),
        _ => unreachable!(),
    }
}

#[test]
fn expr_int_negative() {
    // -1 是一元负号作用于 1
    let e = parse_expr("-1").unwrap();
    assert_eq!(e, Expr::Unary { op: UnaryOp::Neg, expr: Box::new(Expr::IntLit("1".into(), S)) ,
                span: S});
}

// ── 错误路径 ─────────────────────────────────────────────────────────

#[test]
fn error_missing_semicolon() {
    // return x } — x 是合法表达式, 但缺少分号
    let result = parse_source("def f() -> i32 { return x }");
    assert!(result.is_err());
    let err = result.unwrap_err();
    assert!(err.msg.contains("期望 Semi"), "msg: {}", err.msg);
}

#[test]
fn error_unexpected_token_at_top() {
    let result = parse_source("42");
    assert!(result.is_err());
    assert!(result.unwrap_err().msg.contains("struct"));
}

#[test]
fn error_missing_rparen() {
    let result = parse_source("def f( -> void { return; }");
    assert!(result.is_err());
}

#[test]
fn error_wrong_close() {
    let result = parse_source("def f() -> void { return; ]");
    assert!(result.is_err());
}

#[test]
fn error_unterminated_block() {
    let result = parse_source("def f() -> void { return;");
    assert!(result.is_err());
}

#[test]
fn error_missing_arrow() {
    let result = parse_source("def f() i32 { return 0; }");
    assert!(result.is_err());
}

// ── 统计 ─────────────────────────────────────────────────────────────

#[test]
fn stats_func_count() {
    let source = "def f() -> void { return; } def g() -> i32 { return 0; }";
    let mut lex_stats = LexStats {
        duration_us: 0, token_count: 0,
        token_counts_by_kind: Vec::new(), comment_bytes: 0,
    };
    let tokens = lexer::tokenize(source, &mut lex_stats).unwrap();
    let mut stats = ParseStats {
        duration_us: 0, ast_node_count: 0, ast_max_depth: 0,
        node_counts_by_kind: Vec::new(), func_count: 0, struct_count: 0,
    };
    parse(&tokens, &mut stats).unwrap();
    assert_eq!(stats.func_count, 2);
    assert_eq!(stats.struct_count, 0);
}

#[test]
fn stats_struct_count() {
    let source = "struct A { x: i32; } struct B { y: f64; }";
    let mut lex_stats = LexStats {
        duration_us: 0, token_count: 0,
        token_counts_by_kind: Vec::new(), comment_bytes: 0,
    };
    let tokens = lexer::tokenize(source, &mut lex_stats).unwrap();
    let mut stats = ParseStats {
        duration_us: 0, ast_node_count: 0, ast_max_depth: 0,
        node_counts_by_kind: Vec::new(), func_count: 0, struct_count: 0,
    };
    parse(&tokens, &mut stats).unwrap();
    assert_eq!(stats.struct_count, 2);
    assert_eq!(stats.func_count, 0);
}

#[test]
fn stats_depth_for_nested() {
    let source = "def f() -> i32 { { { return 1; } } }";
    let mut lex_stats = LexStats {
        duration_us: 0, token_count: 0,
        token_counts_by_kind: Vec::new(), comment_bytes: 0,
    };
    let tokens = lexer::tokenize(source, &mut lex_stats).unwrap();
    let mut stats = ParseStats {
        duration_us: 0, ast_node_count: 0, ast_max_depth: 0,
        node_counts_by_kind: Vec::new(), func_count: 0, struct_count: 0,
    };
    parse(&tokens, &mut stats).unwrap();
    assert!(stats.ast_max_depth >= 5); // program → func-def → block → block → block → return
}

// ── parse_line 测试 ──────────────────────────────────────────────────

/// 辅助: 源码 → parse_line 结果
fn parse_line_source(source: &str) -> Result<LineResult, ParseError> {
    let mut lex_stats = LexStats {
        duration_us: 0, token_count: 0,
        token_counts_by_kind: Vec::new(), comment_bytes: 0,
    };
    let tokens = lexer::tokenize(source, &mut lex_stats).unwrap();
    parse_line(&tokens)
}

#[test]
fn repl_expr_int_lit() {
    let r = parse_line_source("42").unwrap();
    assert!(matches!(r, LineResult::Expr(_)));
}

#[test]
fn repl_expr_binary_add() {
    let r = parse_line_source("1 + 2").unwrap();
    assert!(matches!(r, LineResult::Expr(_)));
}

#[test]
fn repl_expr_call() {
    let r = parse_line_source("puts(\"hello\")").unwrap();
    assert!(matches!(r, LineResult::Expr(_)));
}

#[test]
fn repl_stmt_let() {
    let r = parse_line_source("var x:i32 = 5;").unwrap();
    assert!(matches!(r, LineResult::Stmt(_)));
}

#[test]
fn repl_stmt_assign() {
    let r = parse_line_source("x = 10;").unwrap();
    assert!(matches!(r, LineResult::Stmt(_)));
}

#[test]
fn repl_expr_with_semi_is_stmt() {
    let r = parse_line_source("1 + 2;").unwrap();
    assert!(matches!(r, LineResult::Stmt(_)));
}

#[test]
fn repl_incomplete_if() {
    let r = parse_line_source("if true then");
    assert!(r.is_err());
    assert!(r.unwrap_err().is_incomplete);
}

#[test]
fn repl_incomplete_var() {
    let r = parse_line_source("var x");
    assert!(r.is_err());
    assert!(r.unwrap_err().is_incomplete);
}

#[test]
fn literal_and_name_spans_cover_their_own_token() {
    let mut st = LexStats::default();
    let ts = lexer::tokenize("42", &mut st).unwrap();
    let e = kangc::parser::parse_expr(&ts).unwrap();
    assert_eq!(kangc::ast::span_of_expr(&e), 0..2);
    let ts = lexer::tokenize("  abc ", &mut st).unwrap();
    let e = kangc::parser::parse_expr(&ts).unwrap();
    assert_eq!(kangc::ast::span_of_expr(&e), 2..5);
    let ts = lexer::tokenize("\"hi\"", &mut st).unwrap();
    let e = kangc::parser::parse_expr(&ts).unwrap();
    assert_eq!(kangc::ast::span_of_expr(&e), 0..4);
}

fn nested(n: usize) -> String {
    format!("{}1{}", "(".repeat(n), ")".repeat(n))
}

#[test]
fn whole_expression_nesting_limit() {
    let mut st = LexStats::default();
    let ts = lexer::tokenize(&nested(255), &mut st).unwrap();
    assert!(kangc::parser::parse_expr(&ts).is_ok());
    let ts = lexer::tokenize(&nested(256), &mut st).unwrap();
    let e = kangc::parser::parse_expr(&ts).unwrap_err();
    assert!(e.msg.contains("嵌套深度超过限制"), "{}", e.msg);
}

#[test]
fn program_nesting_limit_in_a_return() {
    let src = |n: usize| format!("def f() -> i32 {{ return {}; }}", nested(n));
    assert!(parse_source(&src(254)).is_ok());
    let e = parse_source(&src(255)).unwrap_err();
    assert!(e.msg.contains("嵌套深度超过限制"), "{}", e.msg);
}

#[test]
fn empty_stream_reads_as_the_end_marker() {
    let mut ps = ParseStats::default();
    let p = parse(&[], &mut ps).unwrap();
    assert!(p.items.is_empty());
    assert!(kangc::parser::parse_expr(&[]).is_err());
    assert!(kangc::parser::parse_stmt(&[]).is_err());
}
