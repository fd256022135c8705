//! The interactive loop: source text of trees, programs built from lines,
//! and the session's handling of lines.

use kangc::repl::{
    build_program_source, expr_to_source, is_void_builtin_call, stmt_to_source, try_parse, MetaCommand, ReplAction,
    ReplSession,
};
use kangc::parser::LineResult;

fn expr_of(src: &str) -> kangc::ast::Expr {
    match try_parse(src).ok().expect("parses") {
        LineResult::Expr(e) => e,
        _ => panic!("an expression"),
    }
}

#[test]
fn expressions_print_back_as_source() {
    assert_eq!(expr_to_source(&expr_of("a + b * 2")), "a + b * 2");
    assert_eq!(expr_to_source(&expr_of("f(1, \"s\", [true, false])")), "f(1, \"s\", [true, false])");
    assert_eq!(expr_to_source(&expr_of("-p.x[0]")), "-p.x[0]");
    assert_eq!(expr_to_source(&expr_of("Point { x: 1, y: 2 }")), "Point { x:1, y:2 }");
}

#[test]
fn statements_print_back_as_source() {
    let s = match try_parse("var a:i32, _ = f();").ok().expect("parses") {
        LineResult::Stmt(s) => s,
        _ => panic!("a statement"),
    };
    assert_eq!(stmt_to_source(&s), "var a:i32, _ = f();");
    let s = match try_parse("if x then { y = 1; } else return;").ok().expect("parses") {
        LineResult::Stmt(s) => s,
        _ => panic!("a statement"),
    };
    assert_eq!(stmt_to_source(&s), "if x then {\ny = 1;\n} else return;");
}

#[test]
fn void_builtins_are_not_printed() {
    assert!(is_void_builtin_call(&expr_of("puts(\"hi\")")));
    assert!(!is_void_builtin_call(&expr_of("len(\"hi\")")));
    assert_eq!(
        build_program_source("", "1 + 2", true),
        "def main() -> i32 {\n  puts(str(1 + 2));\n  return 0;\n}\n"
    );
}

#[test]
fn lexical_error_in_a_line_is_final() {
    let e = try_parse("1 @ 2").err().expect("an error");
    assert!(!e.is_incomplete);
    assert_eq!((e.line, e.col), (1, 3));
}

#[test]
fn session_runs_expressions_with_definitions() {
    let mut s = ReplSession::new();
    match s.handle_line("def two() -> i32 { return 2; }") {
        ReplAction::Defined(m) => assert_eq!(m, "<function two>"),
        _ => panic!("a definition"),
    }
    match s.handle_line("  two() + 1  ") {
        ReplAction::Run { program, input } => {
            assert_eq!(input, "two() + 1");
            assert_eq!(
                program,
                "def two() -> i32 {\nreturn 2;\n}\ndef main() -> i32 {\n  puts(str(two() + 1));\n  return 0;\n}\n"
            );
        },
        _ => panic!("a run"),
    }
    assert_eq!(s.line_no, 2);
}

#[test]
fn session_continues_an_unfinished_entry() {
    let mut s = ReplSession::new();
    assert!(matches!(s.handle_line("if true then"), ReplAction::Wait));
    assert!(s.continuing);
    match s.handle_line("puts(\"y\");") {
        ReplAction::Run { input, .. } => assert_eq!(input, "if true then\nputs(\"y\");"),
        _ => panic!("a run"),
    }
    assert!(!s.continuing);
    assert_eq!(s.line_buffer, "");
}

#[test]
fn session_commands_and_errors() {
    let mut s = ReplSession::new();
    s.handle_line("struct P { x:i32; }");
    assert_eq!(s.defs_source, "struct P {\nx:i32;\n}\n");
    assert!(matches!(s.handle_line(".clear now"), ReplAction::Meta(MetaCommand::Clear)));
    assert_eq!(s.defs_source, "");
    assert!(matches!(s.handle_line(".exit"), ReplAction::Meta(MetaCommand::Quit)));
    match s.handle_line(".nope") {
        ReplAction::Meta(MetaCommand::Unknown(w)) => assert_eq!(w, ".nope"),
        _ => panic!("an unknown command"),
    }
    match s.handle_line("1 +* 2") {
        ReplAction::Failed { error, input } => {
            assert!(!error.is_incomplete);
            assert_eq!(input, "1 +* 2");
        },
        _ => panic!("a syntax error"),
    }
    assert!(matches!(s.handle_line("   "), ReplAction::Wait));
    match s.handle_line("import m { f } from \"./m.kang\";") {
        ReplAction::Import { path, alias } => assert_eq!((path.as_str(), alias.as_str()), ("./m.kang", "m")),
        _ => panic!("an import"),
    }
}

fn stmt_tokens(src: &str) -> Vec<kangc::lexer::Token> {
    let mut st = kangc::stats::LexStats::default();
    kangc::lexer::tokenize(src, &mut st).expect("lexes")
}

#[test]
fn for_loop_source_keeps_its_step_and_parses_back() {
    let st = kangc::parser::parse_stmt(&stmt_tokens("for var i:i32 = 0, i < 3, i = i + 1 in { }")).expect("parses");
    let text = stmt_to_source(&st);
    assert_eq!(text, "for var i:i32 = 0, i < 3, i = i + 1 in {\n\n}");
    let again = kangc::parser::parse_stmt(&stmt_tokens(&text)).expect("parses back");
    assert!(again == st);
}

#[test]
fn statement_sources_parse_back() {
    for src in [
        "var a:i32, _ = f(1, 2);",
        "a[0] = b.x + 1;",
        "return a, true;",
        "if a < b then { return; } else x = 1;",
        "for var k:i32 = 0, k < n, k = k + 2 in { s = s + k; }",
    ] {
        let st = kangc::parser::parse_stmt(&stmt_tokens(src)).expect("parses");
        let again = kangc::parser::parse_stmt(&stmt_tokens(&stmt_to_source(&st))).expect("parses back");
        assert!(again == st, "{}", src);
    }
}
