//! The order in which a multi-file build visits imported files.

use kangc::ast::Program;
use kangc::imports::{import_paths, ImportWalk};
use kangc::lexer;
use kangc::parser::parse;
use kangc::stats::{LexStats, ParseStats};

fn parse_source(source: &str) -> Program {
    let mut lex_stats = LexStats {
        duration_us: 0, token_count: 0,
        token_counts_by_kind: Vec::new(), comment_bytes: 0,
    };
    let tokens = lexer::tokenize(source, &mut lex_stats).unwrap();
    let mut stats = ParseStats {
        duration_us: 0, ast_node_count: 0, ast_max_depth: 0,
        node_counts_by_kind: Vec::new(), func_count: 0, struct_count: 0,
    };
    parse(&tokens, &mut stats).unwrap()
}

#[test]
fn import_paths_in_item_order() {
    let p = parse_source(
        "import a { f } from \"./a.kang\"; def main() -> i32 { return 0; } import b { g } from \"lib/b.kang\";",
    );
    assert_eq!(import_paths(&p), vec!["./a.kang".to_string(), "lib/b.kang".to_string()]);
}

#[test]
fn program_without_imports_has_no_paths() {
    let p = parse_source("def main() -> i32 { return 0; }");
    assert!(import_paths(&p).is_empty());
}

#[test]
fn walk_starts_with_the_entry() {
    let mut w = ImportWalk::start("/p/main.kang".to_string());
    assert_eq!(w.next_file(), Some("/p/main.kang".to_string()));
    assert_eq!(w.next_file(), None);
    assert_eq!(w.into_files(), vec!["/p/main.kang".to_string()]);
}

#[test]
fn walk_is_breadth_first_and_lists_each_file_once() {
    let mut w = ImportWalk::start("/p/main.kang".to_string());
    assert_eq!(w.next_file(), Some("/p/main.kang".to_string()));
    assert!(w.discover("/p/a.kang".to_string()));
    assert!(w.discover("/p/b.kang".to_string()));
    assert!(!w.discover("/p/a.kang".to_string()));
    assert_eq!(w.next_file(), Some("/p/a.kang".to_string()));
    // a imports c and main again
    assert!(w.discover("/p/c.kang".to_string()));
    assert!(!w.discover("/p/main.kang".to_string()));
    assert_eq!(w.next_file(), Some("/p/b.kang".to_string()));
    assert!(!w.discover("/p/c.kang".to_string()));
    assert_eq!(w.next_file(), Some("/p/c.kang".to_string()));
    assert_eq!(w.next_file(), None);
    assert_eq!(
        w.into_files(),
        vec![
            "/p/main.kang".to_string(),
            "/p/a.kang".to_string(),
            "/p/b.kang".to_string(),
            "/p/c.kang".to_string(),
        ]
    );
}

#[test]
fn walk_has_met_reports_known_files() {
    let mut w = ImportWalk::start("/p/main.kang".to_string());
    assert!(w.has_met(&"/p/main.kang".to_string()));
    assert!(!w.has_met(&"/p/x.kang".to_string()));
    w.discover("/p/x.kang".to_string());
    assert!(w.has_met(&"/p/x.kang".to_string()));
}
