//! The semantic rules on whole programs, imports, the symbol table and the
//! control-flow rule, on concrete inputs.

use kangc::ast::Program;
use kangc::error::SemanticError;
use kangc::lexer::tokenize;
use kangc::parser::parse;
use kangc::semantic::checker::Checker;
use kangc::semantic::flow::all_paths_return;
use kangc::semantic::program::ModuleLoad;
use kangc::semantic::scope::{ScopeHint, SymbolKind, SymbolTable};
use kangc::semantic::types::KangType;
use kangc::stats::{LexStats, ParseStats, SemanticStats};

fn program_of(src: &str) -> Program {
    let mut ls = LexStats::default();
    let tokens = tokenize(src, &mut ls).expect("lex");
    let mut ps = ParseStats::default();
    parse(&tokens, &mut ps).expect("parse")
}

fn check_with(src: &str, modules: &Vec<(String, ModuleLoad)>) -> Result<(), Vec<SemanticError>> {
    let program = program_of(src);
    let mut stats = SemanticStats::default();
    kangc::semantic::check(&program, &mut stats, "<test>", modules).map(|_| ())
}

fn errors_of(src: &str) -> Vec<String> {
    match check_with(src, &Vec::new()) {
        Ok(()) => Vec::new(),
        Err(es) => es.into_iter().map(|e| e.msg).collect(),
    }
}

#[test]
fn clean_program_passes() {
    assert!(errors_of("def add(a:i32, b:i32) -> i32 { return a + b; } def main() -> i32 { return add(1, 2); }").is_empty());
}

#[test]
fn undeclared_variable_is_reported() {
    let es = errors_of("def f() -> i32 { return x; }");
    assert_eq!(es, vec!["未声明的变量 \"x\" (S2): \"x\"".to_string()]);
}

#[test]
fn redeclaration_in_one_scope_is_reported() {
    let es = errors_of("def f() -> void { var x:i32 = 1; var x:i32 = 2; return; }");
    assert!(es.iter().any(|m| m.contains("(S1)")), "{:?}", es);
}

#[test]
fn loop_variable_leaves_with_its_loop() {
    let es = errors_of("def f() -> i32 { for var i:i32 = 0, i < 3, i = i + 1 in { } return i; }");
    assert!(es.iter().any(|m| m.contains("未声明的变量 \"i\"")), "{:?}", es);
}

#[test]
fn missing_return_is_reported() {
    let es = errors_of("def f() -> i32 { var x:i32 = 1; }");
    assert!(es.iter().any(|m| m.contains("(F1)")), "{:?}", es);
}

#[test]
fn second_function_of_a_name_is_refused() {
    let es = errors_of("def f() -> void { return; } def f() -> void { return; }");
    assert!(es.iter().any(|m| m.contains("(F3)")), "{:?}", es);
}

#[test]
fn return_type_mismatch_is_reported() {
    let es = errors_of("def f() -> i32 { return true; }");
    assert_eq!(es, vec!["返回类型不匹配: 期望 :i32，得到 :bool (M3)".to_string()]);
}

#[test]
fn if_condition_must_be_bool() {
    let es = errors_of("def f() -> void { if 1 then { } return; }");
    assert!(es.iter().any(|m| m.contains("(T3)")), "{:?}", es);
}

#[test]
fn all_errors_come_back_in_order() {
    let es = errors_of("def f() -> i32 { return y; } def g() -> i32 { return z; }");
    assert_eq!(es.len(), 2);
    assert!(es[0].contains("\"y\""));
    assert!(es[1].contains("\"z\""));
}

#[test]
fn checker_places_errors_by_line_and_column() {
    let src = "def f() -> i32 {\n  return x;\n}";
    let program = program_of(src);
    let mut c = Checker::new(Some("<t>"), Some(src));
    let r = c.check_program(&program, &Vec::new());
    let es = r.err().expect("an error");
    assert_eq!(es.len(), 1);
    assert_eq!((es[0].line, es[0].col), (2, 10));
    assert_eq!(c.failures(), 1);
}

#[test]
fn missing_module_file_is_refused() {
    let src = "import m { add } from \"./m.kang\"; def main() -> i32 { return 0; }";
    let modules = vec![("./m.kang".to_string(), ModuleLoad::Unreadable)];
    let es = check_with(src, &modules).err().expect("an error");
    assert_eq!(es[0].msg, "无法找到导入文件: ./m.kang");
    let es = check_with(src, &Vec::new()).err().expect("an error");
    assert_eq!(es[0].msg, "无法找到导入文件: ./m.kang");
}

#[test]
fn unresolved_module_path_gives_the_reason() {
    let src = "import m { add } from \"/abs.kang\"; def main() -> i32 { return 0; }";
    let modules = vec![("/abs.kang".to_string(), ModuleLoad::Unresolved("import 不允许绝对路径，请使用相对路径".to_string()))];
    let es = check_with(src, &modules).err().expect("an error");
    assert_eq!(es[0].msg, "import 不允许绝对路径，请使用相对路径");
}

#[test]
fn imported_function_is_called_by_its_alias() {
    let src = "import m { add } from \"./m.kang\"; def main() -> i32 { return m.add(1, 2); }";
    let module = "def add(a:i32, b:i32) -> i32 { return a + b; }".to_string();
    let modules = vec![("./m.kang".to_string(), ModuleLoad::Loaded(module))];
    assert!(check_with(src, &modules).is_ok());
}

#[test]
fn missing_module_item_is_reported() {
    let src = "import m { sub } from \"./m.kang\"; def main() -> i32 { return 0; }";
    let module = "def add(a:i32, b:i32) -> i32 { return a + b; }".to_string();
    let modules = vec![("./m.kang".to_string(), ModuleLoad::Loaded(module))];
    let es = check_with(src, &modules).err().expect("an error");
    assert_eq!(es[0].msg, "模块 \"./m.kang\" 中未找到 \"sub\"");
    assert_eq!((es[0].line, es[0].col), (0, 0));
}

#[test]
fn module_that_fails_to_lex_is_reported() {
    let src = "import m { add } from \"./m.kang\"; def main() -> i32 { return 0; }";
    let modules = vec![("./m.kang".to_string(), ModuleLoad::Loaded("@".to_string()))];
    let es = check_with(src, &modules).err().expect("an error");
    assert_eq!(
        es[0].msg,
        "导入文件 './m.kang' 词法错误: LexError { msg: \"无法识别的字符 '@'\", line: 1, col: 1, span: 0..1 }"
    );
}

#[test]
fn module_that_fails_to_parse_is_reported() {
    let src = "import m { add } from \"./m.kang\"; def main() -> i32 { return 0; }";
    let modules = vec![("./m.kang".to_string(), ModuleLoad::Loaded("def".to_string()))];
    let es = check_with(src, &modules).err().expect("an error");
    assert!(es[0].msg.starts_with("导入文件 './m.kang' 语法错误: ParseError { msg: "), "{}", es[0].msg);
    assert!(es[0].msg.ends_with("is_incomplete: true }"), "{}", es[0].msg);
}

#[test]
fn declared_name_is_found_until_its_scope_ends() {
    let mut t = SymbolTable::new();
    t.push_scope();
    assert!(t.insert("x", SymbolKind::Variable(KangType::I32), ScopeHint::Normal).is_ok());
    assert!(t.lookup("x").is_some());
    assert!(t.lookup_current("x").is_some());
    assert_eq!(
        t.insert("x", SymbolKind::Variable(KangType::Bool), ScopeHint::Normal).err(),
        Some("符号 \"x\" 已在当前作用域声明".to_string())
    );
    let popped = t.pop_scope();
    assert_eq!(popped.len(), 1);
    assert!(t.lookup("x").is_none());
    assert!(t.lookup("puts").is_some());
}

#[test]
fn inner_declaration_shadows_outer_one() {
    let mut t = SymbolTable::new();
    t.push_scope();
    t.insert("v", SymbolKind::Variable(KangType::I32), ScopeHint::Normal).unwrap();
    t.push_scope();
    t.insert("v", SymbolKind::Variable(KangType::Str), ScopeHint::Normal).unwrap();
    match &t.lookup("v").unwrap().kind {
        SymbolKind::Variable(ty) => assert_eq!(*ty, KangType::Str),
        _ => panic!("a variable"),
    }
    t.pop_scope();
    match &t.lookup("v").unwrap().kind {
        SymbolKind::Variable(ty) => assert_eq!(*ty, KangType::I32),
        _ => panic!("a variable"),
    }
}

#[test]
fn leaving_a_loop_scope_drops_only_loop_variables() {
    let mut t = SymbolTable::new();
    t.push_scope();
    t.push_scope();
    t.insert("i", SymbolKind::Variable(KangType::I32), ScopeHint::LoopVar).unwrap();
    t.insert("kept", SymbolKind::Variable(KangType::I32), ScopeHint::Normal).unwrap();
    t.pop_scope_keep_non_loop();
    assert!(t.lookup("i").is_none());
    assert!(t.lookup_current("kept").is_some());
}

#[test]
fn every_path_must_end_in_return() {
    let body_of = |src: &str| match &program_of(src).items[0] {
        kangc::ast::TopLevel::Func(f) => f.body.clone(),
        _ => panic!("a function"),
    };
    assert!(all_paths_return(&body_of("def f() -> i32 { return 1; }")));
    assert!(all_paths_return(&body_of("def f() -> i32 { if true then return 1; else return 2; }")));
    assert!(!all_paths_return(&body_of("def f() -> i32 { if true then return 1; }")));
    assert!(!all_paths_return(&body_of("def f() -> i32 { for var i:i32 = 0, i < 1, i = i + 1 in { return 1; } }")));
    assert!(all_paths_return(&body_of("def f() -> i32 { { return 1; } }")));
}

#[test]
fn lookup_finds_the_innermost_declaration() {
    let mut t = SymbolTable::new();
    t.push_scope();
    t.insert("x", SymbolKind::Variable(KangType::I32), ScopeHint::Normal).unwrap();
    t.push_scope();
    t.insert("x", SymbolKind::Variable(KangType::Bool), ScopeHint::Normal).unwrap();
    let inner = t.lookup("x").expect("found");
    assert!(matches!(inner.kind, SymbolKind::Variable(KangType::Bool)));
    let cur = t.lookup_current("x").expect("found");
    assert!(matches!(cur.kind, SymbolKind::Variable(KangType::Bool)));
    t.pop_scope();
    assert!(matches!(t.lookup("x").expect("found").kind, SymbolKind::Variable(KangType::I32)));
}

fn expr_of(src: &str) -> kangc::ast::Expr {
    let mut ls = LexStats::default();
    let tokens = tokenize(src, &mut ls).expect("lex");
    kangc::parser::parse_expr(&tokens).expect("parse")
}

#[test]
fn operator_operands_must_be_two_i32_or_two_f64() {
    let cases = [
        ("1 - 2", 0, KangType::I32),
        ("1.5 * 2.0", 0, KangType::F64),
        ("1 / 2.0", 1, KangType::I32),
        ("true + 1", 1, KangType::F64),
        ("1 < 2", 0, KangType::Bool),
        ("1.0 >= 2", 1, KangType::Bool),
        ("\"a\" < \"b\"", 1, KangType::Bool),
    ];
    for (src, errs, ty) in cases {
        let mut c = Checker::new(None, None);
        let t = c.check_expr(&expr_of(src), None);
        assert_eq!(c.failures(), errs, "{}", src);
        assert!(t.ty == ty, "{}", src);
    }
}
