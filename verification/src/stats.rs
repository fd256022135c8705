//! Per-stage statistics, gathered as the pipeline runs.

use vstd::prelude::*;

verus! {

/// Size of the source file.
#[derive(Debug, Clone)]
pub struct SourceStats {
    pub file_path: String,
    pub total_bytes: usize,
    pub total_lines: usize,
}

/// Lexer figures; `token_counts_by_kind` pairs each token kind's debug
/// name with how many tokens of that kind the stream holds, keys unique.
#[derive(Debug, Clone)]
pub struct LexStats {
    pub duration_us: u64,
    pub token_count: usize,
    pub token_counts_by_kind: Vec<(String, usize)>,
    pub comment_bytes: usize,
}

/// Parser figures; `node_counts_by_kind` pairs each AST node kind with its
/// number of occurrences, keys unique.
#[derive(Debug, Clone)]
pub struct ParseStats {
    pub duration_us: u64,
    pub ast_node_count: usize,
    pub ast_max_depth: usize,
    pub node_counts_by_kind: Vec<(String, usize)>,
    pub func_count: usize,
    pub struct_count: usize,
}

/// Semantic checker figures.
#[derive(Debug, Clone)]
pub struct SemanticStats {
    pub duration_us: u64,
    pub error_count: usize,
    pub warning_count: usize,
    pub symbol_count: usize,
    pub type_check_passes: usize,
    pub type_check_failures: usize,
}

/// Code generation figures.
#[derive(Debug, Clone)]
pub struct CodeGenStats {
    pub duration_us: u64,
    pub llvm_ir_bytes: usize,
    pub llvm_instruction_count: usize,
    pub llvm_basic_block_count: usize,
    pub llvm_function_count: usize,
    pub runtime_check_insertions: usize,
}

/// The figures of a whole pipeline run; stages that did not run keep their
/// default (all zero, empty).
#[derive(Debug, Clone)]
pub struct CompilerStats {
    pub source: SourceStats,
    pub lex: LexStats,
    pub parse: ParseStats,
    pub semantic: SemanticStats,
    pub codegen: CodeGenStats,
}

/// What code generation produces: the IR text, its figures and the object
/// file it wrote, if any.
#[derive(Debug, Clone)]
pub struct CodeGenResult {
    pub ir_text: String,
    pub stats: CodeGenStats,
    pub object_file: Option<String>,
}

impl SourceStats {
    pub open spec fn is_empty(&self) -> bool {
        self.file_path@.len() == 0 && self.total_bytes == 0 && self.total_lines == 0
    }
}

impl LexStats {
    pub open spec fn is_empty(&self) -> bool {
        self.duration_us == 0 && self.token_count == 0 && self.token_counts_by_kind@.len() == 0
            && self.comment_bytes == 0
    }
}

impl ParseStats {
    pub open spec fn is_empty(&self) -> bool {
        self.duration_us == 0 && self.ast_node_count == 0 && self.ast_max_depth == 0
            && self.node_counts_by_kind@.len() == 0 && self.func_count == 0 && self.struct_count == 0
    }
}

impl SemanticStats {
    pub open spec fn is_empty(&self) -> bool {
        self.duration_us == 0 && self.error_count == 0 && self.warning_count == 0
            && self.symbol_count == 0 && self.type_check_passes == 0 && self.type_check_failures == 0
    }
}

impl CodeGenStats {
    pub open spec fn is_empty(&self) -> bool {
        self.duration_us == 0 && self.llvm_ir_bytes == 0 && self.llvm_instruction_count == 0
            && self.llvm_basic_block_count == 0 && self.llvm_function_count == 0
            && self.runtime_check_insertions == 0
    }
}

impl Default for SourceStats {
    fn default() -> (r: Self)
        ensures
            r.is_empty(),
    {
        SourceStats { file_path: String::new(), total_bytes: 0, total_lines: 0 }
    }
}

impl Default for LexStats {
    fn default() -> (r: Self)
        ensures
            r.is_empty(),
    {
        LexStats { duration_us: 0, token_count: 0, token_counts_by_kind: Vec::new(), comment_bytes: 0 }
    }
}

impl Default for ParseStats {
    fn default() -> (r: Self)
        ensures
            r.is_empty(),
    {
        ParseStats {
            duration_us: 0,
            ast_node_count: 0,
            ast_max_depth: 0,
            node_counts_by_kind: Vec::new(),
            func_count: 0,
            struct_count: 0,
        }
    }
}

impl Default for SemanticStats {
    fn default() -> (r: Self)
        ensures
            r.is_empty(),
    {
        SemanticStats {
            duration_us: 0,
            error_count: 0,
            warning_count: 0,
            symbol_count: 0,
            type_check_passes: 0,
            type_check_failures: 0,
        }
    }
}

impl Default for CodeGenStats {
    fn default() -> (r: Self)
        ensures
            r.is_empty(),
    {
        CodeGenStats {
            duration_us: 0,
            llvm_ir_bytes: 0,
            llvm_instruction_count: 0,
            llvm_basic_block_count: 0,
            llvm_function_count: 0,
            runtime_check_insertions: 0,
        }
    }
}

impl Default for CompilerStats {
    fn default() -> (r: Self)
        ensures
            r.source.is_empty(),
            r.lex.is_empty(),
            r.parse.is_empty(),
            r.semantic.is_empty(),
            r.codegen.is_empty(),
    {
        CompilerStats {
            source: SourceStats::default(),
            lex: LexStats::default(),
            parse: ParseStats::default(),
            semantic: SemanticStats::default(),
            codegen: CodeGenStats::default(),
        }
    }
}

/// A clock reading, for the `duration_us` figures.
#[verifier::external_type_specification]
#[verifier::external_body]
pub struct ExInstant(std::time::Instant);

/// `std::time::Instant::now`: the current time; nothing is known of it.
#[verifier::external_body]
pub(crate) fn clock_now() -> std::time::Instant {
    std::time::Instant::now()
}

/// `std::time::Instant::elapsed`: the time since `t`; it depends on the
/// clock, so nothing is promised of it.
#[verifier::external_body]
pub(crate) fn elapsed_since(t: &std::time::Instant) -> std::time::Duration {
    t.elapsed()
}

/// `std::time::Duration::as_micros`: the whole microseconds of `d`.  A
/// duration is opaque here, so nothing is stated of the number.
#[verifier::external_body]
pub(crate) fn whole_micros(d: &std::time::Duration) -> u128 {
    d.as_micros()
}

/// The low 64 bits of a count of microseconds.
fn low_64_bits(m: u128) -> (r: u64)
    ensures
        r == m % 0x1_0000_0000_0000_0000,
{
    assert(m as u64 == m % 0x1_0000_0000_0000_0000) by (bit_vector);
    m as u64
}

/// The whole microseconds since `t`, cut to 64 bits.  The clock decides the
/// count, so no clause states it: any `u64` can come back.
pub(crate) fn micros_since(t: &std::time::Instant) -> u64 {
    let d = elapsed_since(t);
    let m = whole_micros(&d);
    low_64_bits(m)
}

} // verus!
