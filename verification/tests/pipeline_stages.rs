//! The pipeline stopped at each stage before code generation: outputs,
//! figures, errors, and the stage names.

use kangc::error::KangError;
use kangc::semantic::program::ModuleLoad;
use kangc::stats::CompilerStats;
use kangc::{compile_to_stage, PipelineStage, StageOutput};

/// Runs the pipeline up to `stage`; the text output, if the stage has one.
fn compile(source: &str, stage: PipelineStage) -> Result<(CompilerStats, Option<String>), KangError> {
    let modules: Vec<(String, ModuleLoad)> = Vec::new();
    compile_to_stage(source, "<test>", stage, &modules).map(|(stats, out)| {
        let text = match out {
            StageOutput::Text(t) => Some(t),
            StageOutput::Typed(_) => None,
        };
        (stats, text)
    })
}

#[test]
fn stage_tokens_returns_formatted_tokens() {
    let (_, output) = compile("def f() -> i32 { return 42; }", PipelineStage::Tokens).unwrap();
    let text = output.unwrap();
    assert!(text.contains("DEF"), "应包含 DEF token，got: {}", text);
    assert!(text.contains("RETURN"), "应包含 RETURN token");
    assert!(!text.contains("program"), "不应包含 AST 内容");
}

#[test]
fn stage_ast_returns_s_expr() {
    let (_, output) = compile("def f() -> i32 { return 42; }", PipelineStage::Ast).unwrap();
    let text = output.unwrap();
    assert!(text.contains("(program"), "应包含 s-expr 格式 AST");
    assert!(text.contains("(func-def"), "应包含函数定义");
    assert!(!text.contains("DEF"), "不应包含 token 格式内容");
}

#[test]
fn stage_typed_ast_returns_typed_program_dump() {
    let (_, output) = compile("def f() -> i32 { return 42; }", PipelineStage::TypedAst).unwrap();
    let text = output.unwrap();
    assert!(text.contains("TypedProgram"), "应包含 TypedProgram 调试输出，got: {}", text);
}

#[test]
fn stats_truncated_at_earlier_stage() {
    let (stats, _) = compile("def f() -> i32 { return 42; }", PipelineStage::Tokens).unwrap();
    assert!(stats.lex.token_count > 0, "lex 统计应填充");
    assert_eq!(stats.parse.func_count, 0, "parse 统计应未填充");
    assert_eq!(stats.codegen.llvm_ir_bytes, 0, "codegen 统计应未填充");
}

#[test]
fn lex_error_halts_pipeline() {
    let result = compile("def f() -> i32 { return @; }", PipelineStage::Ast);
    assert!(result.is_err(), "非法字符应导致词法错误");
    match result {
        Err(KangError::Lex(_)) => {}
        _ => panic!("应返回 Lex 错误"),
    }
}

#[test]
fn semantic_error_halts_pipeline() {
    let result = compile("def f() -> i32 { return \"hello\"; }", PipelineStage::LlvmIr);
    assert!(result.is_err(), "类型错误应导致语义错误");
    match result {
        Err(KangError::Semantic(_)) => {}
        _ => panic!("应返回 Semantic 错误, got: {:?}", result.err()),
    }
}

#[test]
fn pipeline_stage_from_emit_flag() {
    assert_eq!(PipelineStage::from_emit_flag("tokens"), Some(PipelineStage::Tokens));
    assert_eq!(PipelineStage::from_emit_flag("ast"), Some(PipelineStage::Ast));
    assert_eq!(PipelineStage::from_emit_flag("typed-ast"), Some(PipelineStage::TypedAst));
    assert_eq!(PipelineStage::from_emit_flag("llvm-ir"), Some(PipelineStage::LlvmIr));
    assert_eq!(PipelineStage::from_emit_flag("object"), Some(PipelineStage::Object));
    assert_eq!(PipelineStage::from_emit_flag(""), None);
    assert_eq!(PipelineStage::from_emit_flag("garbage"), None);
}

#[test]
fn pipeline_stage_ordering() {
    assert!(PipelineStage::Tokens < PipelineStage::Ast);
    assert!(PipelineStage::Ast < PipelineStage::TypedAst);
    assert!(PipelineStage::TypedAst < PipelineStage::LlvmIr);
    assert!(PipelineStage::LlvmIr < PipelineStage::Object);
}

#[test]
fn stats_populated_for_each_stage() {
    let (stats, _) = compile("def f() -> i32 { return 42; }", PipelineStage::LlvmIr).unwrap();

    // 每个阶段都已填充（到语义检查为止；IR 大小由代码生成填写）
    assert!(stats.source.total_bytes > 0, "应统计源文件大小");
    assert!(stats.lex.token_count > 0, "应统计 token 数量");
    assert!(stats.parse.func_count > 0, "应统计函数数量");
    assert!(stats.semantic.symbol_count > 0, "应统计符号数量");
}

#[test]
fn parser_limits_can_be_given() {
    let modules: Vec<(String, ModuleLoad)> = Vec::new();
    let src = "def f() -> i32 { return ((1)); }";
    assert!(kangc::compile_to_stage_limited(src, "<t>", PipelineStage::Ast, &modules, 1_000_000, 256).is_ok());
    match kangc::compile_to_stage_limited(src, "<t>", PipelineStage::Ast, &modules, 1_000_000, 3) {
        Err(KangError::Parse(e)) => assert!(e.msg.contains("嵌套深度超过限制"), "{}", e.msg),
        _ => panic!("depth limit"),
    }
    match kangc::compile_to_stage_limited(src, "<t>", PipelineStage::Ast, &modules, 5, 256) {
        Err(KangError::Parse(_)) => {},
        _ => panic!("token limit"),
    }
}
