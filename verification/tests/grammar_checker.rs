use kangc::validator::recognize::{ParseError, Parser};
use kangc::validator::scan::{scan_error, Lexer, Token, TokenKind};
use kangc::validator::{check_source, file_report, summary};

fn scan(src: &str) -> Vec<Token> {
    let mut lexer = Lexer::new(src);
    lexer.tokenize()
}

fn check_err(src: &str) -> ParseError {
    match check_source(src) {
        Ok(()) => panic!("expected an error for {:?}", src),
        Err(e) => e,
    }
}

#[test]
fn checker_accepts_full_program() {
    let src = "struct P { x: i32; y: [f64]; }\n\
               def f(n: i32) -> (i32, bool) { return n, true; }\n\
               def main() -> i32 {\n\
                   var p: P = P { x: 1, y: [1.5, 2.] };\n\
                   var a: i32, _ = f(1);\n\
                   if p.x > 0 && !(a == 2) then return 1; else { a = -a * 3; }\n\
                   for var i: i32 = 0, i < 10, i = i + 1 in { a = a + i; }\n\
                   p.y[0] = 2.5;\n\
                   return a;\n\
               }\n";
    assert!(check_source(src).is_ok());
}

#[test]
fn checker_accepts_empty_text() {
    assert!(check_source("").is_ok());
    assert!(check_source("  // nothing\n/* at all */").is_ok());
}

#[test]
fn checker_reports_missing_parameter_name() {
    let e = check_err("def f( -> i32 {}");
    assert_eq!(e.msg, "expected Ident(\"\"), got Arrow");
    assert_eq!((e.line, e.col), (1, 8));
    assert_eq!(e.describe(), "Parse error at 1:8 — expected Ident(\"\"), got Arrow");
}

#[test]
fn checker_reports_stray_top_level() {
    let e = check_err("var x: i32 = 1;");
    assert_eq!(e.msg, "expected struct or def, got Var");
    assert_eq!((e.line, e.col), (1, 1));
}

#[test]
fn checker_reports_broken_statement() {
    let e = check_err("def f() -> void { 1 + ; }");
    assert_eq!(e.msg, "expected statement");
    assert_eq!((e.line, e.col), (1, 23));
}

#[test]
fn checker_reports_missing_semicolon() {
    let e = check_err("def f() -> i32 { return 1 }");
    assert_eq!(e.msg, "expected Semi, got RBrace");
    assert_eq!((e.line, e.col), (1, 27));
}

#[test]
fn checker_reports_bad_type() {
    let e = check_err("struct S {\n  x: 5;\n}");
    assert_eq!(e.msg, "expected type, got IntLit(\"5\")");
    assert_eq!((e.line, e.col), (2, 6));
}

#[test]
fn checker_reports_unclosed_block_at_eof() {
    let e = check_err("def f() -> void {\n  return;\n");
    assert_eq!(e.msg, "expected RBrace, got Eof");
    assert_eq!((e.line, e.col), (3, 1));
}

#[test]
fn checker_reports_void_in_expression() {
    let e = check_err("def f() -> void { var x: i32 = void; }");
    assert_eq!(e.msg, "unexpected token in expression: TVoid");
}

#[test]
fn scanner_tracks_lines_columns_and_literals() {
    let ts = scan("var s: str = \"a\\tb\\q\";\n// c\n/* x */ 3.");
    let kinds: Vec<TokenKind> = ts.iter().map(|t| t.kind.clone()).collect();
    assert_eq!(
        kinds,
        vec![
            TokenKind::Var,
            TokenKind::Ident("s".to_string()),
            TokenKind::Colon,
            TokenKind::TStr,
            TokenKind::Assign,
            TokenKind::StrLit("a\tb\\q".to_string()),
            TokenKind::Semi,
            TokenKind::FloatLit("3.".to_string()),
            TokenKind::Eof,
        ]
    );
    let places: Vec<(usize, usize)> = ts.iter().map(|t| (t.line, t.col)).collect();
    assert_eq!(places, vec![(1, 1), (1, 5), (1, 6), (1, 8), (1, 12), (1, 14), (1, 22), (3, 9), (3, 11)]);
}

#[test]
fn scanner_reads_operators_longest_first() {
    let ts = scan("a<=b->c!=d==e/f>g&&h||!i");
    let kinds: Vec<TokenKind> = ts.iter().map(|t| t.kind.clone()).collect();
    assert_eq!(
        kinds,
        vec![
            TokenKind::Ident("a".to_string()),
            TokenKind::Le,
            TokenKind::Ident("b".to_string()),
            TokenKind::Arrow,
            TokenKind::Ident("c".to_string()),
            TokenKind::Neq,
            TokenKind::Ident("d".to_string()),
            TokenKind::EqEq,
            TokenKind::Ident("e".to_string()),
            TokenKind::Slash,
            TokenKind::Ident("f".to_string()),
            TokenKind::Gt,
            TokenKind::Ident("g".to_string()),
            TokenKind::AndAnd,
            TokenKind::Ident("h".to_string()),
            TokenKind::OrOr,
            TokenKind::Bang,
            TokenKind::Ident("i".to_string()),
            TokenKind::Eof,
        ]
    );
}

#[test]
fn scanner_runs_unclosed_comment_to_the_end() {
    let ts = scan("def /* never closed");
    assert_eq!(ts.len(), 2);
    assert_eq!(ts[0].kind, TokenKind::Def);
    assert_eq!(ts[1].kind, TokenKind::Eof);
    assert_eq!((ts[1].line, ts[1].col), (1, 20));
}

#[test]
fn scanner_keeps_keywords_apart_from_names() {
    let ts = scan("\n\n  define then_ i32x true");
    assert_eq!(ts[0].kind, TokenKind::Ident("define".to_string()));
    assert_eq!((ts[0].line, ts[0].col), (3, 3));
    assert_eq!(ts[1].kind, TokenKind::Ident("then_".to_string()));
    assert_eq!(ts[2].kind, TokenKind::Ident("i32x".to_string()));
    assert_eq!(ts[3].kind, TokenKind::True);
}

#[test]
fn scan_error_names_the_first_stuck_place() {
    assert_eq!(
        scan_error("def f() -> i32 { return a & b; }"),
        Some("unexpected '&' at 1:27".to_string())
    );
    assert_eq!(scan_error("x = \"abc"), Some("unterminated string at 1:5".to_string()));
    assert_eq!(scan_error("a\n b | c"), Some("unexpected '|' at 2:4".to_string()));
    assert_eq!(scan_error("a # b"), Some("unexpected character '#' at 1:3".to_string()));
    assert_eq!(scan_error("a && b || c \"x\\\"\""), None);
}

#[test]
fn parser_stops_at_offending_token() {
    let mut p = Parser::new(scan("def f() -> i32 { return 1 }"));
    assert!(p.parse_program().is_err());
    assert_eq!(p.pos, 9);
    let mut q = Parser::new(scan("x[1].y(2, 3) + 4"));
    assert!(q.parse_expr().is_ok());
    assert_eq!(q.pos, 13);
}

#[test]
fn reports_and_summary_lines() {
    assert_eq!(file_report("ok.kang", &Ok(())), "PASS ok.kang");
    let e = check_err("var x: i32 = 1;");
    assert_eq!(
        file_report("bad.kang", &Err(e)),
        "FAIL bad.kang\n     Parse error at 1:1 — expected struct or def, got Var"
    );
    assert_eq!(summary(2, 3), "\n───\n2 / 3 files passed");
}
