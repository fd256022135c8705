//! The Kang compiler front end: lexer, parser, semantic checker and the
//! pipeline that strings them together, the layout and naming decisions of
//! code generation, the value conversions and the allocator bookkeeping of
//! the runtime library, and a stand-alone checker of the grammar.

pub mod arena;
pub mod ast;
pub mod error;
pub mod host;
pub mod imports;
pub mod ir;
pub mod lexer;
pub mod lowering;
pub mod parser;
pub mod repl;
pub mod runtime;
pub mod semantic;
pub mod stats;
pub mod text;
pub mod validator;

use vstd::prelude::*;
use vstd::string::StringSliceAdditionalSpecFns;
use crate::ast::{program_sx, Program, TopLevelV};
use crate::error::{KangError, LexError, ParseError, SemanticError};
use crate::lexer::{
    after_last_newline, count_total, law_counts_add_up, law_token_stream, lemma_line_col_closed, TokenKind,
    counts_exact, lex_error_msg, lex_from, stream_matches, tokens_text, boff, col_of, line_of, LexOutcome, Token,
};
use crate::parser::{
    accepted, err_matches, p_program, parse_stats_of, read_stream, too_long_msg, unplaced, wf, DEFAULT_MAX_DEPTH, DEFAULT_MAX_TOKENS, PR,
};
use crate::semantic::checker::{copy_span, err_v, start_state, ErrV};
use crate::semantic::program::{c_program, imports_loaded, mods_v, texts_fit, ModuleLoad, OutcomeV};
use crate::semantic::typed_debug::typed_debug;
use crate::semantic::types::{TTopV, TypedProgram};
use crate::stats::{CompilerStats, LexStats, ParseStats, SemanticStats, SourceStats};
use crate::text::{contains_text, count_lines, has_part, line_count, lower_str, newline_count, string_of, text_eq, to_lower};

verus! {

// ── Pipeline stages ─────────────────────────────────────────────────────

/// Where a run of the pipeline stops, in pipeline order.
#[derive(Debug, Clone, Copy, PartialEq, Eq, Structural, PartialOrd, Ord)]
pub enum PipelineStage {
    /// After lexing: the token listing.
    Tokens,
    /// After parsing: the syntax tree.
    Ast,
    /// After the semantic checks: the typed program.
    TypedAst,
    /// After code generation: the LLVM IR.
    LlvmIr,
    /// After writing the object file.
    Object,
}

/// The stage an `--emit` value names.
pub open spec fn emit_stage(s: Seq<char>) -> Option<PipelineStage> {
    if s == "tokens"@ {
        Some(PipelineStage::Tokens)
    } else if s == "ast"@ {
        Some(PipelineStage::Ast)
    } else if s == "typed-ast"@ {
        Some(PipelineStage::TypedAst)
    } else if s == "llvm-ir"@ {
        Some(PipelineStage::LlvmIr)
    } else if s == "object"@ {
        Some(PipelineStage::Object)
    } else {
        None
    }
}

/// A stage's place in the pipeline.
pub open spec fn stage_rank(s: PipelineStage) -> nat {
    match s {
        PipelineStage::Tokens => 0,
        PipelineStage::Ast => 1,
        PipelineStage::TypedAst => 2,
        PipelineStage::LlvmIr => 3,
        PipelineStage::Object => 4,
    }
}

impl PipelineStage {
    /// The stage an `--emit` value names: `tokens`, `ast`, `typed-ast`,
    /// `llvm-ir` or `object`.
    pub fn from_emit_flag(s: &str) -> (r: Option<PipelineStage>)
        ensures
            r == emit_stage(s@),
    {
        if text_eq(s, "tokens") {
            Some(PipelineStage::Tokens)
        } else if text_eq(s, "ast") {
            Some(PipelineStage::Ast)
        } else if text_eq(s, "typed-ast") {
            Some(PipelineStage::TypedAst)
        } else if text_eq(s, "llvm-ir") {
            Some(PipelineStage::LlvmIr)
        } else if text_eq(s, "object") {
            Some(PipelineStage::Object)
        } else {
            None
        }
    }
}

// ── The pipeline ────────────────────────────────────────────────────────

/// What a run of the pipeline gives besides its figures.
pub enum StageOutput {
    /// The stage's text: the token listing, the tree's S-expression, or the
    /// typed program's dump.
    Text(String),
    /// The checked program, for code generation to take over.
    Typed(TypedProgram),
}

/// The source figures of `src` read from `path`.
pub open spec fn source_stats_of(s: SourceStats, path: Seq<char>, src: &str) -> bool {
    &&& s.file_path@ == path
    &&& s.total_bytes == src.spec_bytes().len()
    &&& s.total_lines == line_count(src@)
}

/// The lexer's figures for the tokens `ts`, with `cb` bytes of comments.
pub open spec fn lex_stats_of(s: LexStats, ts: Seq<Token>, cb: nat) -> bool {
    &&& s.token_count == ts.len()
    &&& s.comment_bytes == cb
    &&& counts_exact(ts, s.token_counts_by_kind@)
}

/// The error a failed semantic check stops the pipeline with: the first.
pub open spec fn first_error(errs: Seq<ErrV>) -> ErrV {
    if errs.len() > 0 {
        errs[0]
    } else {
        ErrV { msg: "语义检查失败（无具体错误信息）"@, line: 0, col: 0, span: (0, 0) }
    }
}

/// What the pipeline gives from the checked items on, given the outcomes
/// of the imports.
pub open spec fn after_check(
    items: Seq<TopLevelV>,
    outs: Seq<OutcomeV>,
    stage: PipelineStage,
    r: Result<(CompilerStats, StageOutput), KangError>,
) -> bool {
    let (st, res) = c_program(start_state(None), items, outs);
    match res {
        Err(errs) => r matches Err(KangError::Semantic(e)) && err_v(e) == first_error(errs),
        Ok(tops) => match r {
            Ok((stats, out)) => {
                &&& stats.semantic.error_count == st.failures
                &&& stats.semantic.symbol_count == st.symbol_count
                &&& stats.semantic.type_check_passes == st.passes
                &&& stats.semantic.type_check_failures == st.failures
                &&& stats.semantic.warning_count == 0
                &&& stats.codegen.is_empty()
                &&& if stage == PipelineStage::TypedAst {
                    out matches StageOutput::Text(t) && t@ == typed_debug(tops)
                } else {
                    out matches StageOutput::Typed(p) && p@ == tops
                }
            },
            Err(_) => false,
        },
    }
}

/// What the pipeline gives from the tokens `ts` on.
pub open spec fn after_lex(
    ts: Seq<Token>,
    cb: nat,
    stage: PipelineStage,
    mods: Seq<(Seq<char>, crate::semantic::program::LoadV)>,
    r: Result<(CompilerStats, StageOutput), KangError>,
    max_tokens: nat,
    max_depth: nat,
) -> bool {
    if stage == PipelineStage::Tokens {
        r matches Ok((stats, StageOutput::Text(t))) && t@ == tokens_text(ts) && lex_stats_of(stats.lex, ts, cb)
            && stats.parse.is_empty() && stats.semantic.is_empty() && stats.codegen.is_empty()
    } else if ts.len() > max_tokens {
        r matches Err(KangError::Parse(e)) && unplaced(e, too_long_msg(ts.len(), max_tokens), false)
    } else {
        match p_program(ts, max_depth) {
            PR::Fail(at, msg, inc) => r matches Err(KangError::Parse(e)) && err_matches(ts, e, at, msg, inc),
            PR::Read(items, _) => if stage == PipelineStage::Ast {
                r matches Ok((stats, StageOutput::Text(t))) && t@ == program_sx(items) && lex_stats_of(stats.lex, ts, cb)
                    && parse_stats_of(stats.parse, items) && stats.semantic.is_empty() && stats.codegen.is_empty()
            } else {
                (r matches Ok((stats, _)) ==> lex_stats_of(stats.lex, ts, cb) && parse_stats_of(stats.parse, items))
                    && exists|outs: Seq<OutcomeV>| imports_loaded(items, mods, outs) && after_check(items, outs, stage, r)
            },
        }
    }
}

/// What the pipeline gives for `source`, read from `path`, run up to
/// `stage` with the imported modules `mods` and the parser's limits on
/// tokens and nesting: the source figures on success, the lexer's error, or
/// what follows from the tokens.
pub open spec fn stage_outcome_limited(
    source: &str,
    path: Seq<char>,
    stage: PipelineStage,
    mods: Seq<(Seq<char>, crate::semantic::program::LoadV)>,
    r: Result<(CompilerStats, StageOutput), KangError>,
    max_tokens: nat,
    max_depth: nat,
) -> bool {
    &&& r matches Ok((stats, _)) ==> source_stats_of(stats.source, path, source)
    &&& match lex_from(source@, 0) {
        LexOutcome::Failed(a, b) => r matches Err(KangError::Lex(e)) && e.msg@ == lex_error_msg(
            source@.subrange(a as int, b as int),
        ) && e.line == line_of(source@, a) && e.col == col_of(source@, a) && e.span.start == boff(source@, a)
            && e.span.end == boff(source@, b),
        LexOutcome::Tokens(toks, cb) => exists|ts: Seq<Token>|
            stream_matches(source@, ts, toks) && after_lex(ts, cb, stage, mods, r, max_tokens, max_depth),
    }
}

/// The same with the parser's default limits.
pub open spec fn stage_outcome(
    source: &str,
    path: Seq<char>,
    stage: PipelineStage,
    mods: Seq<(Seq<char>, crate::semantic::program::LoadV)>,
    r: Result<(CompilerStats, StageOutput), KangError>,
) -> bool {
    stage_outcome_limited(source, path, stage, mods, r, DEFAULT_MAX_TOKENS as nat, DEFAULT_MAX_DEPTH as nat)
}

/// A pipeline cut short fills in the figures of the stages that ran and
/// leaves those of the others empty: after the tokens no parse, semantic or
/// code-generation figures, after the tree no semantic or code-generation
/// figures, after the typed tree no code-generation figures.  The source
/// figures are always those of the text.
pub proof fn law_stage_figures(
    source: &str,
    path: Seq<char>,
    stage: PipelineStage,
    mods: Seq<(Seq<char>, crate::semantic::program::LoadV)>,
    r: Result<(CompilerStats, StageOutput), KangError>,
    max_tokens: nat,
    max_depth: nat,
)
    requires
        stage_outcome_limited(source, path, stage, mods, r, max_tokens, max_depth),
    ensures
        r matches Ok((stats, _)) ==> {
            &&& source_stats_of(stats.source, path, source)
            &&& stage == PipelineStage::Tokens ==> stats.parse.is_empty() && stats.semantic.is_empty()
                && stats.codegen.is_empty()
            &&& stage == PipelineStage::Ast ==> stats.semantic.is_empty() && stats.codegen.is_empty()
            &&& stage_rank(stage) >= stage_rank(PipelineStage::TypedAst) ==> stats.codegen.is_empty()
        },
{
    if let LexOutcome::Tokens(toks, cb) = lex_from(source@, 0) {
        let ts = choose|ts: Seq<Token>|
            stream_matches(source@, ts, toks) && after_lex(ts, cb, stage, mods, r, max_tokens, max_depth);
        if stage != PipelineStage::Tokens && ts.len() <= max_tokens {
            if let PR::Read(items, _) = p_program(ts, max_depth) {
                if stage != PipelineStage::Ast {
                    let outs = choose|outs: Seq<OutcomeV>| imports_loaded(items, mods, outs) && after_check(items, outs, stage, r);
                }
            }
        }
    }
}

/// The token stage runs the lexer alone: it succeeds exactly when the
/// source lexes, whatever the parser would make of the tokens.
pub proof fn law_token_stage_is_lexing(
    source: &str,
    path: Seq<char>,
    mods: Seq<(Seq<char>, crate::semantic::program::LoadV)>,
    r: Result<(CompilerStats, StageOutput), KangError>,
    max_tokens: nat,
    max_depth: nat,
)
    requires
        stage_outcome_limited(source, path, PipelineStage::Tokens, mods, r, max_tokens, max_depth),
    ensures
        r is Ok <==> lex_from(source@, 0) is Tokens,
{
}

/// Runs the pipeline on `source`, read from `file_path`, up to `stage`, and
/// gives the figures of every stage that ran with the stage's output; the
/// first error of a failing stage stops it.  Stages after the semantic
/// checks hand over the typed program.  `modules` gives, by import path,
/// what reading each imported module gave.
pub fn compile_to_stage(
    source: &str,
    file_path: &str,
    stage: PipelineStage,
    modules: &Vec<(String, ModuleLoad)>,
) -> (r: Result<(CompilerStats, StageOutput), KangError>)
    requires
        source.spec_bytes().len() < usize::MAX,
        texts_fit(mods_v(modules@)),
    ensures
        stage_outcome(source, file_path@, stage, mods_v(modules@), r),
{
    compile_to_stage_limited(source, file_path, stage, modules, DEFAULT_MAX_TOKENS, DEFAULT_MAX_DEPTH)
}

/// `compile_to_stage` with the parser's limits on the number of tokens and
/// on nesting given (as the `KANG_MAX_TOKENS` and `KANG_MAX_DEPTH` settings
/// give them); the imported modules are parsed with the default limits.
pub fn compile_to_stage_limited(
    source: &str,
    file_path: &str,
    stage: PipelineStage,
    modules: &Vec<(String, ModuleLoad)>,
    max_tokens: usize,
    max_depth: usize,
) -> (r: Result<(CompilerStats, StageOutput), KangError>)
    requires
        source.spec_bytes().len() < usize::MAX,
        texts_fit(mods_v(modules@)),
    ensures
        stage_outcome_limited(source, file_path@, stage, mods_v(modules@), r, max_tokens as nat, max_depth as nat),
{
    let source_stats = SourceStats {
        file_path: string_of(file_path),
        total_bytes: source.len(),
        total_lines: count_lines(source),
    };
    let mut stats = CompilerStats::default();
    stats.source = source_stats;
    let tokens = match crate::lexer::tokenize(source, &mut stats.lex) {
        Ok(t) => t,
        Err(e) => return Err(KangError::Lex(e)),
    };
    let ghost ts = tokens@;
    proof {
        match lex_from(source@, 0) {
            LexOutcome::Tokens(toks, _) => {
                crate::parser::lemma_stream_wf(source@, tokens@, toks);
            },
            _ => {},
        }
    }
    if stage == PipelineStage::Tokens {
        let text = crate::lexer::format_tokens(tokens.as_slice());
        return Ok((stats, StageOutput::Text(text)));
    }
    let program = match crate::parser::parse_limited(tokens.as_slice(), &mut stats.parse, max_depth, max_tokens) {
        Ok(p) => p,
        Err(e) => return Err(KangError::Parse(e)),
    };
    if stage == PipelineStage::Ast {
        let text = program.to_sexpr();
        return Ok((stats, StageOutput::Text(text)));
    }
    let typed = match crate::semantic::check(&program, &mut stats.semantic, file_path, modules) {
        Ok(tp) => tp,
        Err(errors) => {
            let first = if errors.len() > 0 {
                let e = &errors[0];
                SemanticError { msg: e.msg.clone(), line: e.line, col: e.col, span: copy_span(&e.span) }
            } else {
                SemanticError { msg: string_of("语义检查失败（无具体错误信息）"), line: 0, col: 0, span: 0..0 }
            };
            return Err(KangError::Semantic(first));
        },
    };
    if stage == PipelineStage::TypedAst {
        let text = typed.to_debug_text();
        return Ok((stats, StageOutput::Text(text)));
    }
    Ok((stats, StageOutput::Typed(typed)))
}

// ── Stage entry points ──────────────────────────────────────────────────

/// Lexing: source text to tokens (see `lexer::tokenize`).
pub fn tokenize(source: &str, stats: &mut LexStats) -> (r: Result<Vec<Token>, LexError>)
    requires
        source.spec_bytes().len() < usize::MAX,
    ensures
        match lex_from(source@, 0) {
            LexOutcome::Tokens(toks, cb) => r matches Ok(tokens) && stream_matches(source@, tokens@, toks)
                && lex_stats_of(*final(stats), tokens@, cb),
            LexOutcome::Failed(a, b) => r matches Err(e) && e.msg@ == lex_error_msg(source@.subrange(a as int, b as int))
                && e.line == line_of(source@, a) && e.col == col_of(source@, a) && e.span.start == boff(source@, a)
                && e.span.end == boff(source@, b) && final(stats).token_count == old(stats).token_count
                && final(stats).comment_bytes == old(stats).comment_bytes
                && final(stats).token_counts_by_kind == old(stats).token_counts_by_kind,
        },
{
    crate::lexer::tokenize(source, stats)
}

/// What a successful lexing of `source` gives: the tokens end with exactly
/// one end marker, at the end of the text in bytes; no token before it is an
/// end marker or a comment; the tokens follow each other without overlap;
/// each token's line is one more than the line feeds before its first
/// character, and its column one more than the characters since the last of
/// them; and the figures count the tokens, the counts by kind adding up to
/// the same number.
pub proof fn law_tokenized_stream(source: &str, tokens: Seq<Token>, stats: LexStats)
    requires
        lex_from(source@, 0) is Tokens,
        stream_matches(source@, tokens, lex_from(source@, 0)->Tokens_0),
        lex_stats_of(stats, tokens, lex_from(source@, 0)->Tokens_1),
    ensures
        tokens.len() >= 1,
        tokens.last().kind@ == TokenKind::Eof@,
        tokens.last().span.start == source.spec_bytes().len(),
        tokens.last().span.end == source.spec_bytes().len(),
        forall|k: int| 0 <= k < tokens.len() - 1 ==> (#[trigger] tokens[k]).kind@ != TokenKind::Eof@ && tokens[k].kind@
            != TokenKind::Comment@,
        forall|k: int| 0 <= k < tokens.len() - 1 ==> (#[trigger] tokens[k]).span.end <= tokens[k + 1].span.start,
        forall|k: int|
            0 <= k < tokens.len() ==> exists|s: nat|
                s <= source@.len() && (#[trigger] tokens[k]).span.start == boff(source@, s) && tokens[k].line == 1
                    + newline_count(source@.take(s as int)) && tokens[k].col == 1 + after_last_newline(
                    source@.take(s as int),
                ),
        stats.token_count == tokens.len(),
        count_total(stats.token_counts_by_kind@) == tokens.len(),
{
    let cs = source@;
    law_token_stream(cs, tokens, lex_from(cs, 0)->Tokens_0, lex_from(cs, 0)->Tokens_1);
    law_counts_add_up(tokens, stats.token_counts_by_kind@);
    assert forall|k: int|
        0 <= k < tokens.len() implies exists|s: nat|
            s <= cs.len() && (#[trigger] tokens[k]).span.start == boff(cs, s) && tokens[k].line == 1 + newline_count(
                cs.take(s as int),
            ) && tokens[k].col == 1 + after_last_newline(cs.take(s as int)) by {
        let s = choose|s: nat|
            s <= cs.len() && tokens[k].span.start == boff(cs, s) && tokens[k].line == line_of(cs, s) && tokens[k].col
                == col_of(cs, s);
        lemma_line_col_closed(cs, s);
    }
}

/// Parsing: tokens to a syntax tree (see `parser::parse`).
pub fn parse(tokens: &[Token], stats: &mut ParseStats) -> (r: Result<Program, ParseError>)
    requires
        accepted(tokens@),
    ensures
        tokens@.len() > DEFAULT_MAX_TOKENS ==> (r matches Err(e) && unplaced(
            e,
            too_long_msg(tokens@.len(), DEFAULT_MAX_TOKENS as nat),
            false,
        ) && *final(stats) == *old(stats)),
        tokens@.len() <= DEFAULT_MAX_TOKENS ==> match p_program(read_stream(tokens@), DEFAULT_MAX_DEPTH as nat) {
            PR::Read(items, _) => r matches Ok(prog) && prog@ == items && parse_stats_of(*final(stats), items),
            PR::Fail(at, msg, inc) => r matches Err(e) && err_matches(read_stream(tokens@), e, at, msg, inc) && *final(stats)
                == *old(stats),
        },
{
    crate::parser::parse(tokens, stats)
}

/// The semantic checks: a syntax tree to a typed program (see
/// `semantic::check`).
pub fn check(
    program: &Program,
    stats: &mut SemanticStats,
    file_path: &str,
    modules: &Vec<(String, ModuleLoad)>,
) -> (r: Result<TypedProgram, Vec<SemanticError>>)
    requires
        texts_fit(mods_v(modules@)),
    ensures
        exists|outs: Seq<OutcomeV>|
            {
                &&& imports_loaded(program@, mods_v(modules@), outs)
                &&& crate::semantic::program::program_result_v(r) == c_program(start_state(None), program@, outs).1
                &&& final(stats).error_count == c_program(start_state(None), program@, outs).0.failures
                &&& final(stats).symbol_count == c_program(start_state(None), program@, outs).0.symbol_count
            },
{
    crate::semantic::check(program, stats, file_path, modules)
}

// ── Targets ─────────────────────────────────────────────────────────────

/// The operating system a target triple names.
#[derive(Debug, Clone, Copy, PartialEq, Eq, Structural)]
pub enum TargetOs {
    Linux,
    MacOs,
    Windows,
    Unknown,
}

/// The operating system named in a lower-cased triple.
pub open spec fn os_of(t: Seq<char>) -> TargetOs {
    if has_part(t, "linux"@) {
        TargetOs::Linux
    } else if has_part(t, "apple"@) || has_part(t, "darwin"@) {
        TargetOs::MacOs
    } else if has_part(t, "windows"@) || has_part(t, "msvc"@) {
        TargetOs::Windows
    } else {
        TargetOs::Unknown
    }
}

/// The operating system of a target triple, read case-insensitively.
pub fn target_os_from_triple(triple: &str) -> (r: TargetOs)
    ensures
        r == os_of(lower_str(triple@)),
{
    let t = to_lower(triple);
    if contains_text(t.as_str(), "linux") {
        TargetOs::Linux
    } else if contains_text(t.as_str(), "apple") || contains_text(t.as_str(), "darwin") {
        TargetOs::MacOs
    } else if contains_text(t.as_str(), "windows") || contains_text(t.as_str(), "msvc") {
        TargetOs::Windows
    } else {
        TargetOs::Unknown
    }
}

/// Whether linking for `target_triple` needs a cross linker: its operating
/// system is not the host's, `host`.
pub fn is_cross_os(target_triple: &str, host: TargetOs) -> (r: bool)
    ensures
        r == (host != os_of(lower_str(target_triple@))),
{
    let t = target_os_from_triple(target_triple);
    host != t
}

/// The emulation `lld -m` takes for a triple and its operating system.
pub open spec fn machine_of(triple: Seq<char>, os: TargetOs) -> Seq<char> {
    match os {
        TargetOs::Linux => if has_part(triple, "x86_64"@) {
            "elf_x86_64"@
        } else if has_part(triple, "aarch64"@) {
            "aarch64linux"@
        } else if has_part(triple, "arm"@) {
            "armelf_linux_eabi"@
        } else {
            "elf_x86_64"@
        },
        TargetOs::MacOs => if has_part(triple, "aarch64"@) || has_part(triple, "arm64"@) {
            "arm64"@
        } else if has_part(triple, "x86_64"@) {
            "x86_64"@
        } else {
            "arm64"@
        },
        _ => "elf_x86_64"@,
    }
}

/// The `-m` value for lld: the emulation for the target's architecture and
/// object format.
pub fn lld_machine(target_triple: &str, target_os: TargetOs) -> (r: &'static str)
    ensures
        r@ == machine_of(target_triple@, target_os),
{
    match target_os {
        TargetOs::Linux => {
            if contains_text(target_triple, "x86_64") {
                "elf_x86_64"
            } else if contains_text(target_triple, "aarch64") {
                "aarch64linux"
            } else if contains_text(target_triple, "arm") {
                "armelf_linux_eabi"
            } else {
                "elf_x86_64"
            }
        },
        TargetOs::MacOs => {
            if contains_text(target_triple, "aarch64") || contains_text(target_triple, "arm64") {
                "arm64"
            } else if contains_text(target_triple, "x86_64") {
                "x86_64"
            } else {
                "arm64"
            }
        },
        _ => "elf_x86_64",
    }
}

} // verus!
