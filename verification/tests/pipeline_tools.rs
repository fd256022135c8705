//! The pipeline's figures and texts, target triples, and the error texts.

use kangc::error::{KangError, LexError, ParseError};
use kangc::semantic::program::ModuleLoad;
use kangc::{compile_to_stage, is_cross_os, lld_machine, target_os_from_triple, PipelineStage, StageOutput, TargetOs};

fn run(src: &str, stage: PipelineStage) -> (kangc::stats::CompilerStats, StageOutput) {
    let modules: Vec<(String, ModuleLoad)> = Vec::new();
    compile_to_stage(src, "dir/prog.kang", stage, &modules).ok().expect("runs")
}

#[test]
fn source_figures_count_bytes_and_lines() {
    let (stats, _) = run("def f() -> i32 {\n  return 42;\n}\n", PipelineStage::Tokens);
    assert_eq!(stats.source.file_path, "dir/prog.kang");
    assert_eq!(stats.source.total_bytes, 32);
    assert_eq!(stats.source.total_lines, 3);
    let (stats, _) = run("def f() -> i32 { return 1; }", PipelineStage::Tokens);
    assert_eq!(stats.source.total_lines, 1);
    let (stats, _) = run("", PipelineStage::Tokens);
    assert_eq!(stats.source.total_lines, 0);
}

#[test]
fn token_listing_shows_kind_lexeme_and_position() {
    let (_, out) = run("x", PipelineStage::Tokens);
    match out {
        StageOutput::Text(t) => assert_eq!(t, "IDENT \"x\" @ 1:1\nEOF \"\" @ 1:2\n"),
        StageOutput::Typed(_) => panic!("text"),
    }
}

#[test]
fn typed_stage_hands_over_the_program() {
    let (stats, out) = run("def f() -> i32 { return 42; }", PipelineStage::LlvmIr);
    assert!(matches!(out, StageOutput::Typed(_)));
    assert_eq!(stats.parse.func_count, 1);
    assert!(stats.semantic.symbol_count >= 16);
    assert_eq!(stats.semantic.error_count, 0);
}

#[test]
fn parse_error_halts_pipeline() {
    let modules: Vec<(String, ModuleLoad)> = Vec::new();
    match compile_to_stage("def f(", "<t>", PipelineStage::Ast, &modules) {
        Err(KangError::Parse(e)) => assert!(e.is_incomplete),
        _ => panic!("a syntax error"),
    }
}

#[test]
fn target_os_is_read_from_the_triple() {
    assert_eq!(target_os_from_triple("x86_64-unknown-linux-musl"), TargetOs::Linux);
    assert_eq!(target_os_from_triple("X86_64-UNKNOWN-LINUX-GNU"), TargetOs::Linux);
    assert_eq!(target_os_from_triple("aarch64-apple-darwin"), TargetOs::MacOs);
    assert_eq!(target_os_from_triple("x86_64-pc-windows-msvc"), TargetOs::Windows);
    assert_eq!(target_os_from_triple("wasm32-wasi"), TargetOs::Unknown);
}

#[test]
fn cross_linking_is_needed_for_another_os() {
    assert!(is_cross_os("x86_64-unknown-linux-musl", TargetOs::MacOs));
    assert!(!is_cross_os("x86_64-unknown-linux-musl", TargetOs::Linux));
}

#[test]
fn lld_emulation_follows_the_triple() {
    assert_eq!(lld_machine("x86_64-unknown-linux-musl", TargetOs::Linux), "elf_x86_64");
    assert_eq!(lld_machine("aarch64-unknown-linux-gnu", TargetOs::Linux), "aarch64linux");
    assert_eq!(lld_machine("armv7-unknown-linux-gnueabihf", TargetOs::Linux), "armelf_linux_eabi");
    assert_eq!(lld_machine("aarch64-apple-darwin", TargetOs::MacOs), "arm64");
    assert_eq!(lld_machine("x86_64-apple-darwin", TargetOs::MacOs), "x86_64");
    assert_eq!(lld_machine("riscv64-unknown-linux-gnu", TargetOs::Linux), "elf_x86_64");
    assert_eq!(lld_machine("x86_64-pc-windows-msvc", TargetOs::Windows), "elf_x86_64");
}

#[test]
fn errors_describe_themselves() {
    let e = KangError::Lex(LexError { msg: "无法识别的字符 '@'".to_string(), line: 2, col: 5, span: 7..8 });
    assert_eq!(e.describe(), "词法错误: 无法识别的字符 '@' at 2:5");
    let p = ParseError { msg: "x".to_string(), line: 1, col: 1, span: 0..1, is_incomplete: false };
    assert_eq!(p.debug_text(), "ParseError { msg: \"x\", line: 1, col: 1, span: 0..1, is_incomplete: false }");
    assert_eq!(KangError::Parse(p).describe(), "语法错误: x at 1:1");
}
