//! Semantic analysis: the type system, scopes, control flow and the checker
//! that turns a syntax tree into a typed program.

pub mod checker;
pub mod flow;
pub mod program;
pub mod scope;
pub mod typed_debug;
pub mod typed_text;
pub mod types;

use vstd::prelude::*;
use crate::ast::Program;
use crate::error::SemanticError;
use crate::semantic::checker::{start_state, Checker};
use crate::semantic::program::{c_program, imports_loaded, mods_v, program_result_v, texts_fit, ModuleLoad, OutcomeV};
use crate::semantic::types::TypedProgram;
use crate::stats::{clock_now, micros_since, SemanticStats};

verus! {

/// Checks a program with a new checker for the file `file_path`; errors
/// are collected, not fatal, and all returned together.  `modules` gives,
/// by import path, what reading each imported module gave.  The figures of
/// the run go to `stats`.
pub fn check(
    program: &Program,
    stats: &mut SemanticStats,
    file_path: &str,
    modules: &Vec<(String, ModuleLoad)>,
) -> (r: Result<TypedProgram, Vec<SemanticError>>)
    requires
        texts_fit(mods_v(modules@)),
    ensures
        exists|outs: Seq<OutcomeV>|
            {
                &&& imports_loaded(program@, mods_v(modules@), outs)
                &&& program_result_v(r) == c_program(start_state(None), program@, outs).1
                &&& final(stats).error_count == c_program(start_state(None), program@, outs).0.failures
                &&& final(stats).symbol_count == c_program(start_state(None), program@, outs).0.symbol_count
                &&& final(stats).type_check_passes == c_program(start_state(None), program@, outs).0.passes
                &&& final(stats).type_check_failures == c_program(start_state(None), program@, outs).0.failures
            },
        final(stats).warning_count == 0,
{
    let start = clock_now();
    let mut checker = Checker::new(Some(file_path), None);
    let result = checker.check_program(program, modules);
    stats.duration_us = micros_since(&start);
    stats.error_count = checker.failures();
    stats.warning_count = 0;
    stats.symbol_count = checker.symbol_count();
    stats.type_check_passes = checker.passes();
    stats.type_check_failures = checker.failures();
    result
}

} // verus!
